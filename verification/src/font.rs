//! Fonts: which font of a diagram supplies the glyph of a character.
//!
//! A diagram has a primary font and, optionally, a system font that covers
//! further characters. A character's glyph comes from the primary font when
//! it maps the character, else from the system font.

use skrifa::MetadataProvider;
use vstd::prelude::*;

use crate::error::SeqDiagramError;

verus! {

/// Which font a glyph was resolved from.
#[derive(Debug, Clone, Copy, PartialEq, Eq, Hash, Structural)]
pub enum FontSource {
    Primary,
    Fallback,
    System,
}

/// The data of a font reads as a font (a name for whether
/// `skrifa::FontRef::new` succeeds on it).
pub uninterp spec fn font_reads(data: Seq<u8>) -> bool;

/// The glyph that a font's character map gives a character (a name for the
/// result of skrifa's character map lookup).
pub uninterp spec fn font_glyph(data: Seq<u8>, c: char) -> Option<u32>;

/// The text of the error that `skrifa::FontRef::new` reports for data that
/// does not read as a font (a name for the `Display` text of its
/// `ReadError`).
pub uninterp spec fn font_error_text(data: Seq<u8>) -> Seq<char>;

/// `skrifa::FontRef::new`: whether the bytes read as a font, and, when they
/// do not, the text of the reading error. The contract ties success to
/// `font_reads` and names the text; the error kinds are not restated.
#[verifier::external_body]
fn read_font(data: &[u8]) -> (r: Result<(), String>)
    ensures
        r is Ok <==> font_reads(data@),
        r matches Err(m) ==> m@ == font_error_text(data@),
{
    skrifa::FontRef::new(data).map(|_| ()).map_err(|e| e.to_string())
}

/// skrifa's character map lookup (`FontRef::new(data)`, then
/// `charmap().map(c)`): the glyph the font gives `c`, as a number. The
/// contract names the result; the font tables are not restated.
#[verifier::external_body]
fn charmap_glyph(data: &[u8], c: char) -> (g: Option<u32>)
    requires
        font_reads(data@),
    ensures
        g == font_glyph(data@, c),
{
    skrifa::FontRef::new(data).ok().and_then(|f| f.charmap().map(c)).map(|g| g.to_u32())
}

/// The fonts of a diagram.
pub struct DiagramFont {
    primary: Vec<u8>,
    system_font: Option<Vec<u8>>,
}

/// The glyph of `c` and its font: the primary font's when it maps `c`, else
/// the system font's (when there is one that reads and maps `c`).
pub open spec fn resolved_glyph(primary: Seq<u8>, system: Option<Seq<u8>>, c: char) -> Option<
    (u32, FontSource),
> {
    match font_glyph(primary, c) {
        Some(g) => Some((g, FontSource::Primary)),
        None => match system {
            Some(d) => if font_reads(d) {
                match font_glyph(d, c) {
                    Some(g) => Some((g, FontSource::System)),
                    None => None,
                }
            } else {
                None
            },
            None => None,
        },
    }
}

impl DiagramFont {
    /// The primary font's data.
    pub closed spec fn primary_data(&self) -> Seq<u8> {
        self.primary@
    }

    /// The system font's data, if one is loaded.
    pub closed spec fn system_data(&self) -> Option<Seq<u8>> {
        match self.system_font {
            Some(d) => Some(d@),
            None => None,
        }
    }

    /// The fonts hold together: the primary font reads as a font.
    pub closed spec fn wf(&self) -> bool {
        font_reads(self.primary@)
    }

    /// Loads a diagram font with `primary` as its primary font; fails with a
    /// font error when the data does not read as a font.
    pub fn load(primary: Vec<u8>) -> (r: Result<Self, SeqDiagramError>)
        ensures
            font_reads(primary@) ==> (r matches Ok(f) && f.wf() && f.primary_data() == primary@
                && f.system_data() is None),
            !font_reads(primary@) ==> (r matches Err(SeqDiagramError::Font(m)) && m@
                == "Failed to load primary font: "@ + font_error_text(primary@)),
    {
        match read_font(primary.as_slice()) {
            Ok(()) => Ok(DiagramFont { primary, system_font: None }),
            Err(e) => {
                let mut msg = String::from_str("Failed to load primary font: ");
                msg.append(e.as_str());
                Err(SeqDiagramError::Font(msg))
            },
        }
    }

    /// Loads a diagram font with `primary` as its primary font and `data`,
    /// read from the file at `path`, as its system font. Fails with a font
    /// error when either does not read as a font.
    pub fn load_with_system_font(primary: Vec<u8>, path: &str, data: Vec<u8>) -> (r: Result<
        Self,
        SeqDiagramError,
    >)
        ensures
            (font_reads(primary@) && font_reads(data@)) ==> (r matches Ok(f) && f.wf()
                && f.primary_data() == primary@ && f.system_data() == Some(data@)),
            !font_reads(primary@) ==> (r matches Err(SeqDiagramError::Font(m)) && m@
                == "Failed to load primary font: "@ + font_error_text(primary@)),
            (font_reads(primary@) && !font_reads(data@)) ==> (r matches Err(
                SeqDiagramError::Font(m),
            ) && m@ == "Invalid font "@ + path@ + ": "@ + font_error_text(data@)),
    {
        let font = match DiagramFont::load(primary) {
            Ok(f) => f,
            Err(e) => return Err(e),
        };
        match read_font(data.as_slice()) {
            Ok(()) => Ok(DiagramFont { primary: font.primary, system_font: Some(data) }),
            Err(e) => {
                let mut msg = String::from_str("Invalid font ");
                msg.append(path);
                msg.append(": ");
                msg.append(e.as_str());
                Err(SeqDiagramError::Font(msg))
            },
        }
    }

    /// Resolves a character to a glyph, trying the primary font, then the
    /// system font.
    pub fn resolve_glyph(&self, c: char) -> (r: Option<(u32, FontSource)>)
        requires
            self.wf(),
        ensures
            r == resolved_glyph(self.primary_data(), self.system_data(), c),
    {
        if let Some(g) = charmap_glyph(self.primary.as_slice(), c) {
            return Some((g, FontSource::Primary));
        }
        match &self.system_font {
            Some(d) => match read_font(d.as_slice()) {
                Ok(()) => match charmap_glyph(d.as_slice(), c) {
                    Some(g) => Some((g, FontSource::System)),
                    None => None,
                },
                Err(_) => None,
            },
            None => None,
        }
    }

    /// The data of the font that `source` names: the primary font, or the
    /// loaded system font.
    pub fn font_for(&self, source: FontSource) -> (d: &[u8])
        requires
            source is Primary || (source is System && self.system_data() is Some),
        ensures
            source is Primary ==> d@ == self.primary_data(),
            source is System ==> Some(d@) == self.system_data(),
    {
        match source {
            FontSource::System => match &self.system_font {
                Some(data) => data.as_slice(),
                None => self.primary.as_slice(),
            },
            _ => self.primary.as_slice(),
        }
    }
}

/// A character that the primary font maps takes its glyph from the primary
/// font, whatever the system font holds; the system font is asked only for
/// characters that the primary font lacks.
pub proof fn law_primary_font_first(primary: Seq<u8>, system: Option<Seq<u8>>, c: char)
    ensures
        font_glyph(primary, c) matches Some(g) ==> resolved_glyph(primary, system, c) == Some(
            (g, FontSource::Primary),
        ),
        font_glyph(primary, c) is None && system is None ==> resolved_glyph(primary, system, c)
            is None,
{
}

} // verus!
