//! The document model: a parsed diagram is a list of statements.

use vstd::prelude::*;

verus! {

/// A parsed sequence diagram document.
#[derive(Debug, Clone)]
pub struct Document {
    pub statements: Vec<Statement>,
}

/// A single statement in a sequence diagram.
#[derive(Debug, Clone)]
pub enum Statement {
    Title(String),
    Participant { actor: String, alias: Option<String> },
    Message {
        from: String,
        to: String,
        arrow: Arrow,
        text: String,
        activation: Option<ActivationModifier>,
        delay: Option<u8>,
    },
    Note { position: NotePosition, text: String },
    Activate(String),
    Deactivate(String),
    Destroy(String),
    FrameOpen { kind: FrameKind, label: String },
    FrameElse { label: String },
    FrameEnd,
}

/// Arrow style combining line and head variants.
#[derive(Debug, Clone, Copy, PartialEq, Eq)]
pub struct Arrow {
    pub line_style: LineStyle,
    pub head_style: HeadStyle,
}

/// Line style for arrows.
#[derive(Debug, Clone, Copy, PartialEq, Eq, Structural)]
pub enum LineStyle {
    /// `-` solid line
    Solid,
    /// `--` dashed line
    Dashed,
}

/// Arrowhead style.
#[derive(Debug, Clone, Copy, PartialEq, Eq, Structural)]
pub enum HeadStyle {
    /// `>` open arrowhead
    Open,
    /// `>>` closed/filled arrowhead
    Closed,
}

/// Activation modifier on a message arrow.
#[derive(Debug, Clone, Copy, PartialEq, Eq, Structural)]
pub enum ActivationModifier {
    /// `+` activate target actor
    Activate,
    /// `-` deactivate target actor
    Deactivate,
}

/// Kind of frame block.
#[derive(Debug, Clone, Copy, PartialEq, Eq, Structural)]
pub enum FrameKind {
    Alt,
    Opt,
    Loop,
    Par,
    Critical,
    Break,
}

/// Placement of a note in the diagram.
#[derive(Debug, Clone, PartialEq, Eq)]
pub enum NotePosition {
    LeftOf(String),
    RightOf(String),
    Over(String),
    OverBetween(String, String),
}

/// The mathematical content of a [`NotePosition`].
pub enum NotePositionView {
    LeftOf(Seq<char>),
    RightOf(Seq<char>),
    Over(Seq<char>),
    OverBetween(Seq<char>, Seq<char>),
}

/// The mathematical content of a [`Statement`]: its strings as character
/// sequences.
pub enum StatementView {
    Title(Seq<char>),
    Participant { actor: Seq<char>, alias: Option<Seq<char>> },
    Message {
        from: Seq<char>,
        to: Seq<char>,
        arrow: Arrow,
        text: Seq<char>,
        activation: Option<ActivationModifier>,
        delay: Option<u8>,
    },
    Note { position: NotePositionView, text: Seq<char> },
    Activate(Seq<char>),
    Deactivate(Seq<char>),
    Destroy(Seq<char>),
    FrameOpen { kind: FrameKind, label: Seq<char> },
    FrameElse { label: Seq<char> },
    FrameEnd,
}

pub open spec fn opt_string_view(o: Option<String>) -> Option<Seq<char>> {
    match o {
        Some(s) => Some(s@),
        None => None,
    }
}

impl View for NotePosition {
    type V = NotePositionView;

    open spec fn view(&self) -> NotePositionView {
        match self {
            NotePosition::LeftOf(a) => NotePositionView::LeftOf(a@),
            NotePosition::RightOf(a) => NotePositionView::RightOf(a@),
            NotePosition::Over(a) => NotePositionView::Over(a@),
            NotePosition::OverBetween(a, b) => NotePositionView::OverBetween(a@, b@),
        }
    }
}

impl View for Statement {
    type V = StatementView;

    open spec fn view(&self) -> StatementView {
        match self {
            Statement::Title(t) => StatementView::Title(t@),
            Statement::Participant { actor, alias } => StatementView::Participant {
                actor: actor@,
                alias: opt_string_view(*alias),
            },
            Statement::Message { from, to, arrow, text, activation, delay } =>
                StatementView::Message {
                    from: from@,
                    to: to@,
                    arrow: *arrow,
                    text: text@,
                    activation: *activation,
                    delay: *delay,
                },
            Statement::Note { position, text } => StatementView::Note {
                position: position@,
                text: text@,
            },
            Statement::Activate(a) => StatementView::Activate(a@),
            Statement::Deactivate(a) => StatementView::Deactivate(a@),
            Statement::Destroy(a) => StatementView::Destroy(a@),
            Statement::FrameOpen { kind, label } => StatementView::FrameOpen {
                kind: *kind,
                label: label@,
            },
            Statement::FrameElse { label } => StatementView::FrameElse { label: label@ },
            Statement::FrameEnd => StatementView::FrameEnd,
        }
    }
}

/// The statements of a document, each by its view.
pub open spec fn statements_view(v: Seq<Statement>) -> Seq<StatementView> {
    Seq::new(v.len(), |i: int| v[i]@)
}

impl View for Document {
    type V = Seq<StatementView>;

    open spec fn view(&self) -> Seq<StatementView> {
        statements_view(self.statements@)
    }
}

/// The keyword that opens a frame of this kind, as written in its tab.
pub open spec fn frame_kind_name(k: FrameKind) -> Seq<char> {
    match k {
        FrameKind::Alt => seq!['a', 'l', 't'],
        FrameKind::Opt => seq!['o', 'p', 't'],
        FrameKind::Loop => seq!['l', 'o', 'o', 'p'],
        FrameKind::Par => seq!['p', 'a', 'r'],
        FrameKind::Critical => seq!['c', 'r', 'i', 't', 'i', 'c', 'a', 'l'],
        FrameKind::Break => seq!['b', 'r', 'e', 'a', 'k'],
    }
}

impl FrameKind {
    /// The frame's keyword (`alt`, `opt`, `loop`, `par`, `critical`, `break`).
    pub fn to_string(&self) -> (s: String)
        ensures
            s@ == frame_kind_name(*self),
    {
        let mut s = String::new();
        let name: &[char] = match self {
            FrameKind::Alt => &['a', 'l', 't'],
            FrameKind::Opt => &['o', 'p', 't'],
            FrameKind::Loop => &['l', 'o', 'o', 'p'],
            FrameKind::Par => &['p', 'a', 'r'],
            FrameKind::Critical => &['c', 'r', 'i', 't', 'i', 'c', 'a', 'l'],
            FrameKind::Break => &['b', 'r', 'e', 'a', 'k'],
        };
        let mut i: usize = 0;
        while i < name.len()
            invariant
                i <= name@.len(),
                s@ == name@.take(i as int),
            decreases name@.len() - i,
        {
            crate::text::push_char(&mut s, name[i]);
            assert(name@.take(i + 1) =~= name@.take(i as int).push(name@[i as int]));
            i = i + 1;
        }
        assert(name@.take(name@.len() as int) =~= name@);
        assert(name@ =~= frame_kind_name(*self));
        s
    }
}

} // verus!
