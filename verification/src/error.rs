//! Errors reported by the library.

use vstd::prelude::*;

verus! {

/// Error type for sequence diagram operations.
#[derive(Debug)]
pub enum SeqDiagramError {
    Parse(String),
    Layout(String),
    Font(String),
    Render(String),
}

/// The text that prefixes each kind of error in its message.
pub open spec fn error_prefix(e: SeqDiagramError) -> Seq<char> {
    match e {
        SeqDiagramError::Parse(_) => seq!['P', 'a', 'r', 's', 'e', ' ', 'e', 'r', 'r', 'o', 'r', ':', ' '],
        SeqDiagramError::Layout(_) => seq!['L', 'a', 'y', 'o', 'u', 't', ' ', 'e', 'r', 'r', 'o', 'r', ':', ' '],
        SeqDiagramError::Font(_) => seq!['F', 'o', 'n', 't', ' ', 'e', 'r', 'r', 'o', 'r', ':', ' '],
        SeqDiagramError::Render(_) => seq!['R', 'e', 'n', 'd', 'e', 'r', ' ', 'e', 'r', 'r', 'o', 'r', ':', ' '],
    }
}

/// The detail that an error carries.
pub open spec fn error_detail(e: SeqDiagramError) -> Seq<char> {
    match e {
        SeqDiagramError::Parse(m) => m@,
        SeqDiagramError::Layout(m) => m@,
        SeqDiagramError::Font(m) => m@,
        SeqDiagramError::Render(m) => m@,
    }
}

impl SeqDiagramError {
    /// The error's message: `Parse error: <detail>` and so on for each kind.
    pub fn to_string(&self) -> (s: String)
        ensures
            s@ == error_prefix(*self) + error_detail(*self),
    {
        let (prefix, detail): (&[char], &String) = match self {
            SeqDiagramError::Parse(m) => (&['P', 'a', 'r', 's', 'e', ' ', 'e', 'r', 'r', 'o', 'r', ':', ' '], m),
            SeqDiagramError::Layout(m) => (&['L', 'a', 'y', 'o', 'u', 't', ' ', 'e', 'r', 'r', 'o', 'r', ':', ' '], m),
            SeqDiagramError::Font(m) => (&['F', 'o', 'n', 't', ' ', 'e', 'r', 'r', 'o', 'r', ':', ' '], m),
            SeqDiagramError::Render(m) => (&['R', 'e', 'n', 'd', 'e', 'r', ' ', 'e', 'r', 'r', 'o', 'r', ':', ' '], m),
        };
        let mut s = String::new();
        crate::text::push_chars(&mut s, prefix);
        assert(prefix@ =~= error_prefix(*self));
        s.append(detail.as_str());
        s
    }
}

/// Error type of the functions that render diagrams into a note's folder.
#[derive(Debug)]
pub enum SeqDiagError {
    ParseFailed { msg: String },
    RenderFailed { msg: String },
    IoFailed { msg: String },
    ThemeParseFailed { msg: String },
}

/// The text that prefixes each kind of error in its message.
pub open spec fn diag_error_prefix(e: SeqDiagError) -> Seq<char> {
    match e {
        SeqDiagError::ParseFailed { .. } => "Parse failed: "@,
        SeqDiagError::RenderFailed { .. } => "Render failed: "@,
        SeqDiagError::IoFailed { .. } => "IO failed: "@,
        SeqDiagError::ThemeParseFailed { .. } => "Theme parse failed: "@,
    }
}

/// The detail that an error carries.
pub open spec fn diag_error_detail(e: SeqDiagError) -> Seq<char> {
    match e {
        SeqDiagError::ParseFailed { msg } => msg@,
        SeqDiagError::RenderFailed { msg } => msg@,
        SeqDiagError::IoFailed { msg } => msg@,
        SeqDiagError::ThemeParseFailed { msg } => msg@,
    }
}

impl SeqDiagError {
    /// The error's message: `Parse failed: <detail>` and so on for each kind.
    pub fn to_string(&self) -> (s: String)
        ensures
            s@ == diag_error_prefix(*self) + diag_error_detail(*self),
    {
        let (prefix, detail) = match self {
            SeqDiagError::ParseFailed { msg } => ("Parse failed: ", msg),
            SeqDiagError::RenderFailed { msg } => ("Render failed: ", msg),
            SeqDiagError::IoFailed { msg } => ("IO failed: ", msg),
            SeqDiagError::ThemeParseFailed { msg } => ("Theme parse failed: ", msg),
        };
        let mut s = String::from_str(prefix);
        s.append(detail.as_str());
        s
    }
}

} // verus!
