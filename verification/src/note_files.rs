//! The files that diagrams are rendered to in a note's folder.
//!
//! A diagram's file is named `seqdiag_<checksum>_<theme>.<svg|png>`: the
//! checksum is the first 6 bytes of the SHA-256 digest of the diagram's
//! source in lowercase hexadecimal, and the theme is the theme's name in
//! lowercase with spaces turned into hyphens.

use sha2::Digest;
use vstd::prelude::*;

use vstd::utf8::encode_utf8;

use crate::actors::{contains_string, strings_view};
use crate::color::{hex_encode, hex_string, is_lower_hex_digit, lemma_hex_string_shape};
use crate::error::{error_detail, error_prefix, SeqDiagError, SeqDiagramError};
use crate::parse::{document_of, parse_document};
use crate::text::{ascii_lowercased, ascii_text, lowercase, push_char, to_lowercase};

verus! {

/// The SHA-256 digest of `data` (a name for what `sha2::Sha256::digest` returns).
pub uninterp spec fn sha256(data: Seq<u8>) -> Seq<u8>;

/// `sha2::Sha256::digest`: the SHA-256 digest of `data`, whose output is 32
/// bytes. The contract names the digest and states its length; nothing else
/// about the hash function is claimed.
#[verifier::external_body]
fn sha256_digest(data: &[u8]) -> (d: Vec<u8>)
    ensures
        d@ == sha256(data@),
        d@.len() == 32,
{
    sha2::Sha256::digest(data).to_vec()
}

/// The checksum of a diagram's source: its first 6 digest bytes in hex.
pub open spec fn checksum_of(source: Seq<char>) -> Seq<char> {
    hex_string(sha256(encode_utf8(source)).take(6))
}

/// `s` with each space turned into a hyphen.
pub open spec fn hyphenated(s: Seq<char>) -> Seq<char> {
    Seq::new(s.len(), |i: int| if s[i] == ' ' { '-' } else { s[i] })
}

/// A theme's name as it stands in file names.
pub open spec fn sanitised(name: Seq<char>) -> Seq<char> {
    hyphenated(lowercase(name))
}

/// The output format asks for PNG: `png` in ASCII letters of either case.
pub open spec fn wants_png(format: Seq<char>) -> bool {
    format.len() == 3 && crate::parse::kw_at(format, 0, seq!['p', 'n', 'g'])
}

/// The extension of the output file: `png` when asked for, else `svg`.
pub open spec fn output_extension(format: Seq<char>) -> Seq<char> {
    if wants_png(format) {
        "png"@
    } else {
        "svg"@
    }
}

/// The name of the file of the diagram with `checksum`, for a theme and an
/// output format.
pub open spec fn file_name_for(checksum: Seq<char>, theme: Seq<char>, format: Seq<char>) -> Seq<
    char,
> {
    "seqdiag_"@ + checksum + "_"@ + sanitised(theme) + "."@ + output_extension(format)
}

/// The name of a diagram's file.
pub open spec fn diagram_file_name(source: Seq<char>, theme: Seq<char>, format: Seq<char>) -> Seq<
    char,
> {
    file_name_for(checksum_of(source), theme, format)
}

/// The checksum made from a digest: its first 6 bytes in lowercase hex.
pub fn checksum_from_digest(digest: &[u8]) -> (s: String)
    requires
        digest@.len() >= 6,
    ensures
        s@ == hex_string(digest@.take(6)),
{
    let mut first: Vec<u8> = Vec::new();
    let mut i: usize = 0;
    while i < 6
        invariant
            i <= 6 <= digest@.len(),
            first@ == digest@.take(i as int),
        decreases 6 - i,
    {
        first.push(digest[i]);
        assert(digest@.take(i + 1) =~= digest@.take(i as int).push(digest@[i as int]));
        i = i + 1;
    }
    hex_encode(first.as_slice())
}

/// The checksum of a diagram's source: 12 lowercase hex digits.
pub fn seqdiag_checksum(seqdiag_source: &str) -> (s: String)
    ensures
        s@ == checksum_of(seqdiag_source@),
        s@.len() == 12,
        forall|i: int| 0 <= i < s@.len() ==> is_lower_hex_digit(#[trigger] s@[i]),
{
    let digest = sha256_digest(seqdiag_source.as_bytes());
    let s = checksum_from_digest(digest.as_slice());
    proof {
        lemma_hex_string_shape(digest@.take(6));
    }
    s
}

/// `s` with each space turned into a hyphen.
pub fn hyphenate_spaces(s: &str) -> (r: String)
    ensures
        r@ == hyphenated(s@),
{
    let v = crate::text::chars_of(s);
    let mut r = String::new();
    let mut i: usize = 0;
    while i < v.len()
        invariant
            i <= v@.len(),
            v@ == s@,
            r@ == hyphenated(s@).take(i as int),
        decreases v@.len() - i,
    {
        let c = if v[i] == ' ' {
            '-'
        } else {
            v[i]
        };
        push_char(&mut r, c);
        assert(hyphenated(s@).take(i + 1) =~= hyphenated(s@).take(i as int).push(c));
        i = i + 1;
    }
    assert(hyphenated(s@).take(v@.len() as int) =~= hyphenated(s@));
    r
}

/// A theme's name for use in file names: lowercase, spaces turned into
/// hyphens.
pub fn sanitise_theme_name(name: &str) -> (r: String)
    ensures
        r@ == sanitised(name@),
        ascii_text(name@) ==> r@ == hyphenated(ascii_lowercased(name@)),
{
    let lower = to_lowercase(name);
    hyphenate_spaces(lower.as_str())
}

/// Whether the output format asks for PNG (`png` in any ASCII case).
pub fn wants_png_exec(output_format: &str) -> (b: bool)
    ensures
        b == wants_png(output_format@),
{
    let v = crate::text::chars_of(output_format);
    if v.len() != 3 {
        return false;
    }
    let png: [char; 3] = ['p', 'n', 'g'];
    let mut i: usize = 0;
    while i < 3
        invariant
            i <= 3,
            v@.len() == 3,
            v@ == output_format@,
            png@ == seq!['p', 'n', 'g'],
            forall|m: int| 0 <= m < i ==> crate::parse::ci_eq(v@[m], #[trigger] png@[m]),
        decreases 3 - i,
    {
        let c = v[i];
        let k = png[i];
        if !(c == k || (c as u32) == (k as u32) - 32) {
            return false;
        }
        i = i + 1;
    }
    true
}

/// The name of the file that a diagram renders to, for a theme and an output
/// format (`png`, in any ASCII case, gives PNG; anything else SVG).
pub fn seqdiag_filename(seqdiag_source: &str, theme_name: &str, output_format: &str) -> (r: String)
    ensures
        r@ == diagram_file_name(seqdiag_source@, theme_name@, output_format@),
{
    let checksum = seqdiag_checksum(seqdiag_source);
    let theme = sanitise_theme_name(theme_name);
    let ext = if wants_png_exec(output_format) {
        "png"
    } else {
        "svg"
    };
    let mut r = String::from_str("seqdiag_");
    r.append(checksum.as_str());
    r.append("_");
    r.append(theme.as_str());
    r.append(".");
    r.append(ext);
    r
}

/// Checks a diagram's syntax without rendering it.
pub fn validate_seqdiag(seqdiag_source: &str) -> (r: Result<(), SeqDiagError>)
    ensures
        match document_of(seqdiag_source@) {
            Ok(_) => r is Ok,
            Err(m) => r matches Err(SeqDiagError::ParseFailed { msg }) && msg@ == "Parse error: "@
                + m,
        },
{
    match parse_document(seqdiag_source) {
        Ok(_) => Ok(()),
        Err(e) => {
            let msg = e.to_string();
            proof {
                reveal_strlit("Parse error: ");
                assert(error_prefix(e) =~= "Parse error: "@);
            }
            Err(SeqDiagError::ParseFailed { msg })
        },
    }
}

/// `folder` joined with the relative path `name`, as a path on a Unix
/// system: a `/` goes between them unless `folder` is empty or already ends
/// with one.
pub open spec fn path_joined(folder: Seq<char>, name: Seq<char>) -> Seq<char> {
    if folder.len() == 0 || folder.last() == '/' {
        folder + name
    } else {
        folder + seq!['/'] + name
    }
}

/// The path of the metadata file of a note's folder: `metadata.json` in it.
pub fn metadata_path(note_folder: &str) -> (p: String)
    ensures
        p@ == path_joined(note_folder@, "metadata.json"@),
{
    let v = crate::text::chars_of(note_folder);
    let mut p = String::from_str(note_folder);
    if v.len() > 0 && v[v.len() - 1] != '/' {
        push_char(&mut p, '/');
    }
    p.append("metadata.json");
    p
}

// ---------------------------------------------------------------------------
// Cleaning up
// ---------------------------------------------------------------------------

pub open spec fn file_prefix() -> Seq<char> {
    seq!['s', 'e', 'q', 'd', 'i', 'a', 'g', '_']
}

/// `name` ends with `.png` or `.svg`.
pub open spec fn has_image_extension(name: Seq<char>) -> bool {
    name.len() >= 4 && name[name.len() - 4] == '.' && ({
        let e = name.subrange(name.len() - 3, name.len() as int);
        e == seq!['p', 'n', 'g'] || e == seq!['s', 'v', 'g']
    })
}

/// The checksum that a diagram file's name carries: for a name
/// `seqdiag_<rest>` ending in `.png` or `.svg`, the part of `rest` before its
/// first `_` (all of `rest` when it has none).
pub open spec fn file_checksum(name: Seq<char>) -> Option<Seq<char>> {
    if name.len() >= 8 && name.subrange(0, 8) == file_prefix() && has_image_extension(name) {
        let rest = name.subrange(8, name.len() as int);
        Some(rest.subrange(0, crate::text::find_char_from(rest, '_', 0)))
    } else {
        None
    }
}

/// The checksum that a diagram file's name carries, if it is such a file.
pub fn file_checksum_exec(name: &str) -> (r: Option<String>)
    ensures
        crate::ast::opt_string_view(r) == file_checksum(name@),
{
    let v = crate::text::chars_of(name);
    let n = v.len();
    if n < 8 {
        return None;
    }
    let prefix: [char; 8] = ['s', 'e', 'q', 'd', 'i', 'a', 'g', '_'];
    let mut i: usize = 0;
    while i < 8
        invariant
            i <= 8 <= v@.len(),
            v@ == name@,
            prefix@ == file_prefix(),
            forall|m: int| 0 <= m < i ==> v@[m] == prefix@[m],
        decreases 8 - i,
    {
        if v[i] != prefix[i] {
            assert(v@.subrange(0, 8)[i as int] != file_prefix()[i as int]);
            return None;
        }
        i = i + 1;
    }
    assert(v@.subrange(0, 8) =~= file_prefix());
    if n < 4 || v[n - 4] != '.' {
        return None;
    }
    let png = v[n - 3] == 'p' && v[n - 2] == 'n' && v[n - 1] == 'g';
    let svg = v[n - 3] == 's' && v[n - 2] == 'v' && v[n - 1] == 'g';
    let ghost e = v@.subrange(n - 3, n as int);
    assert(png ==> e =~= seq!['p', 'n', 'g']);
    assert(svg ==> e =~= seq!['s', 'v', 'g']);
    assert(e == seq!['p', 'n', 'g'] ==> e[0] == 'p' && e[1] == 'n' && e[2] == 'g');
    assert(e == seq!['s', 'v', 'g'] ==> e[0] == 's' && e[1] == 'v' && e[2] == 'g');
    if !(png || svg) {
        return None;
    }
    let end = crate::text::find_char_in(&v, 8, n, '_', 8);
    let ghost rest = v@.subrange(8, n as int);
    assert(rest.subrange(0, end - 8) =~= v@.subrange(8, end as int));
    Some(crate::text::string_in(&v, 8, end))
}

/// Whether a file found in the note's folder is a diagram file to delete: its
/// name carries a checksum that is not valid, and it was not deleted yet.
pub fn is_stale_file(name: &str, valid: &Vec<String>, deleted: &Vec<String>) -> (b: bool)
    ensures
        b == (match file_checksum(name@) {
            Some(cs) => !strings_view(valid@).contains(cs) && !strings_view(deleted@).contains(
                name@,
            ),
            None => false,
        }),
{
    match file_checksum_exec(name) {
        Some(cs) => {
            let n = String::from_str(name);
            !contains_string(valid, &cs) && !contains_string(deleted, &n)
        },
        None => false,
    }
}

/// The checksum that the name of a diagram's file carries is the diagram's
/// checksum: cleaning up by file name finds each diagram's files.
pub proof fn law_file_name_carries_checksum(
    checksum: Seq<char>,
    theme: Seq<char>,
    format: Seq<char>,
)
    requires
        forall|i: int| 0 <= i < checksum.len() ==> is_lower_hex_digit(#[trigger] checksum[i]),
    ensures
        file_checksum(file_name_for(checksum, theme, format)) == Some(checksum),
{
    reveal_strlit("seqdiag_");
    reveal_strlit("_");
    reveal_strlit(".");
    reveal_strlit("png");
    reveal_strlit("svg");
    let name = file_name_for(checksum, theme, format);
    let ext = output_extension(format);
    let tail = "_"@ + sanitised(theme) + "."@ + ext;
    assert(name == "seqdiag_"@ + checksum + tail);
    assert(name.subrange(0, 8) =~= file_prefix());
    assert(ext.len() == 3);
    assert(name.subrange(name.len() - 3, name.len() as int) =~= ext);
    assert(name[name.len() - 4] == '.');
    assert("png"@ =~= seq!['p', 'n', 'g']);
    assert("svg"@ =~= seq!['s', 'v', 'g']);
    assert(has_image_extension(name));
    let rest = name.subrange(8, name.len() as int);
    assert(rest =~= checksum + tail);
    let n = checksum.len() as int;
    assert(rest[n] == '_');
    crate::text::lemma_find_char_bounds(rest, '_', 0);
    let f = crate::text::find_char_from(rest, '_', 0);
    if f < n {
        assert(rest[f] == checksum[f]);
        assert(is_lower_hex_digit(checksum[f]));
    }
    assert(f == n);
    assert(rest.subrange(0, n) =~= checksum);
}

} // verus!
