//! The text format of sequence diagrams, and its parser.
//!
//! A document is read line by line. Each line is trimmed; an empty line and a
//! line that starts with `#` carry nothing. Every other line is one
//! statement, of the first of these forms that it matches (keywords match
//! ASCII letters in either case, and a keyword is followed by whitespace or
//! the end of the line):
//!
//! - `title` then, optionally, `:`, then the title text;
//! - `participant <actor>` or `participant <actor> as <alias>`;
//! - `note left of <actor>: <text>`, `note right of <actor>: <text>`,
//!   `note over <actor>: <text>` or `note over <actor>, <actor>: <text>`
//!   (the `: <text>` part may be left out);
//! - `activate <actor>`, `deactivate <actor>`, `destroy <actor>`;
//! - `alt`, `opt`, `loop`, `par`, `critical` or `break`, then an optional label;
//! - `else`, then an optional label;
//! - `end`, then anything;
//! - a message `<from><arrow>[(<digits>)][+|-]<to>[: <text>]`, where the arrow
//!   is `->`, `->>`, `-->` or `-->>` (its first occurrence on the line), the
//!   digits give a delay (kept when it fits in a `u8`), `+` and `-` activate
//!   and deactivate the target, and `<from>` holds no `:`.
//!
//! Names and labels are trimmed; in titles, notes and message texts the two
//! characters `\n` stand for a line break.

use vstd::prelude::*;

use crate::ast::{
    opt_string_view,    frame_kind_name, statements_view, ActivationModifier, Arrow, Document, FrameKind, HeadStyle,
    LineStyle, NotePosition, NotePositionView, Statement, StatementView,
};
use crate::error::SeqDiagramError;
use crate::text::{
    ascii_lower_letters, back_ws, ascii_lowercased, ascii_text, chars_in, chars_of, lemma_ascii_lower_letters,
    lowercase, to_lowercase, decimal, lemma_find_char_bounds, find_char_from, find_char_in, is_ws, is_ws_char, push_chars, push_decimal,
    skip_ws, skip_ws_in, string_in, trim, trim_in, unescape, unescape_in,
};

verus! {

// ---------------------------------------------------------------------------
// Keywords
// ---------------------------------------------------------------------------

/// `c` equals the keyword character `k` up to ASCII case.
pub open spec fn ci_eq(c: char, k: char) -> bool {
    c == k || ('a' <= k && k <= 'z' && c as u32 == (k as u32) - 32)
}

/// The keyword `kw` stands in `l` at index `i`, up to ASCII case.
pub open spec fn kw_at(l: Seq<char>, i: int, kw: Seq<char>) -> bool {
    &&& 0 <= i
    &&& i + kw.len() <= l.len()
    &&& forall|j: int| 0 <= j < kw.len() ==> ci_eq(l[i + j], #[trigger] kw[j])
}

/// The keyword `kw` stands in `l` at index `i`, followed by whitespace or by
/// the end of `l`.
pub open spec fn word_at(l: Seq<char>, i: int, kw: Seq<char>) -> bool {
    &&& kw_at(l, i, kw)
    &&& (i + kw.len() == l.len() || is_ws(l[i + kw.len()]))
}

pub open spec fn title_kw() -> Seq<char> {
    seq!['t', 'i', 't', 'l', 'e']
}

pub open spec fn participant_kw() -> Seq<char> {
    seq!['p', 'a', 'r', 't', 'i', 'c', 'i', 'p', 'a', 'n', 't']
}

pub open spec fn note_kw() -> Seq<char> {
    seq!['n', 'o', 't', 'e']
}

pub open spec fn left_kw() -> Seq<char> {
    seq!['l', 'e', 'f', 't']
}

pub open spec fn right_kw() -> Seq<char> {
    seq!['r', 'i', 'g', 'h', 't']
}

pub open spec fn of_kw() -> Seq<char> {
    seq!['o', 'f']
}

pub open spec fn over_kw() -> Seq<char> {
    seq!['o', 'v', 'e', 'r']
}

pub open spec fn activate_kw() -> Seq<char> {
    seq!['a', 'c', 't', 'i', 'v', 'a', 't', 'e']
}

pub open spec fn deactivate_kw() -> Seq<char> {
    seq!['d', 'e', 'a', 'c', 't', 'i', 'v', 'a', 't', 'e']
}

pub open spec fn destroy_kw() -> Seq<char> {
    seq!['d', 'e', 's', 't', 'r', 'o', 'y']
}

pub open spec fn else_kw() -> Seq<char> {
    seq!['e', 'l', 's', 'e']
}

pub open spec fn end_kw() -> Seq<char> {
    seq!['e', 'n', 'd']
}

fn ci_eq_exec(c: char, k: char) -> (b: bool)
    ensures
        b == ci_eq(c, k),
{
    c == k || ('a' <= k && k <= 'z' && (c as u32) == (k as u32) - 32)
}

/// Whether the keyword `kw` stands in `l` at `i`, up to ASCII case.
fn kw_at_exec(l: &Vec<char>, i: usize, kw: &[char]) -> (b: bool)
    ensures
        b == kw_at(l@, i as int, kw@),
{
    if i > l.len() || kw.len() > l.len() - i {
        return false;
    }
    let mut j: usize = 0;
    while j < kw.len()
        invariant
            j <= kw@.len(),
            i + kw.len() <= l.len(),
            kw@.len() == kw.len(),
            forall|m: int| 0 <= m < j ==> ci_eq(l@[i + m], #[trigger] kw@[m]),
        decreases kw@.len() - j,
    {
        if !ci_eq_exec(l[i + j], kw[j]) {
            return false;
        }
        j = j + 1;
    }
    true
}

/// Whether the keyword `kw` stands in `l` at `i`, followed by whitespace or
/// by the end of `l`.
fn word_at_exec(l: &Vec<char>, i: usize, kw: &[char]) -> (b: bool)
    ensures
        b == word_at(l@, i as int, kw@),
{
    if !kw_at_exec(l, i, kw) {
        return false;
    }
    let n = l.len();
    let e = i + kw.len();
    e == n || is_ws_char(l[e])
}

// ---------------------------------------------------------------------------
// Statement forms
// ---------------------------------------------------------------------------

/// The text after a `:` at index `c` of `l` (empty when `c` is past the end).
pub open spec fn tail_text(l: Seq<char>, c: int) -> Seq<char> {
    if c < l.len() {
        unescape(trim(l.subrange(c + 1, l.len() as int)))
    } else {
        Seq::empty()
    }
}

/// `title[:] <text>`.
pub open spec fn title_form(l: Seq<char>) -> Option<StatementView> {
    if kw_at(l, 0, title_kw()) && (l.len() == 5 || l[5] == ':' || is_ws(l[5])) {
        let a = skip_ws(l, 5);
        let b = if a < l.len() && l[a] == ':' {
            a + 1
        } else {
            a
        };
        Some(StatementView::Title(unescape(trim(l.subrange(b, l.len() as int)))))
    } else {
        None
    }
}

/// The first index at or after `i` where ` as ` stands (the letters in either
/// case), or `s.len()`.
pub open spec fn find_as_from(s: Seq<char>, i: int) -> int
    decreases s.len() - i,
{
    if i < 0 || i + 4 > s.len() {
        s.len() as int
    } else if s[i] == ' ' && ci_eq(s[i + 1], 'a') && ci_eq(s[i + 2], 's') && s[i + 3] == ' ' {
        i
    } else {
        find_as_from(s, i + 1)
    }
}

pub proof fn lemma_find_as_bounds(s: Seq<char>, i: int)
    requires
        0 <= i <= s.len(),
    ensures
        i <= find_as_from(s, i) <= s.len(),
        find_as_from(s, i) < s.len() ==> find_as_from(s, i) + 4 <= s.len(),
    decreases s.len() - i,
{
    if i + 4 <= s.len() && !(s[i] == ' ' && ci_eq(s[i + 1], 'a') && ci_eq(s[i + 2], 's') && s[i
        + 3] == ' ') {
        lemma_find_as_bounds(s, i + 1);
    }
}

/// `participant <actor>` or `participant <actor> as <alias>`.
pub open spec fn participant_form(l: Seq<char>) -> Option<StatementView> {
    if word_at(l, 0, participant_kw()) {
        let rest = trim(l.subrange(11, l.len() as int));
        if rest.len() == 0 {
            None
        } else {
            let p = find_as_from(rest, 0);
            if p < rest.len() {
                Some(
                    StatementView::Participant {
                        actor: trim(rest.subrange(0, p)),
                        alias: Some(trim(rest.subrange(p + 4, rest.len() as int))),
                    },
                )
            } else {
                Some(StatementView::Participant { actor: rest, alias: None })
            }
        }
    } else {
        None
    }
}

/// The actor named by a keyword of length `n` at the start of `l` followed
/// by the actor's name.
pub open spec fn keyword_actor(l: Seq<char>, kw: Seq<char>) -> Option<Seq<char>> {
    if word_at(l, 0, kw) && trim(l.subrange(kw.len() as int, l.len() as int)).len() > 0 {
        Some(trim(l.subrange(kw.len() as int, l.len() as int)))
    } else {
        None
    }
}

/// `activate <actor>`.
pub open spec fn activate_form(l: Seq<char>) -> Option<StatementView> {
    match keyword_actor(l, activate_kw()) {
        Some(a) => Some(StatementView::Activate(a)),
        None => None,
    }
}

/// `deactivate <actor>`.
pub open spec fn deactivate_form(l: Seq<char>) -> Option<StatementView> {
    match keyword_actor(l, deactivate_kw()) {
        Some(a) => Some(StatementView::Deactivate(a)),
        None => None,
    }
}

/// `destroy <actor>`.
pub open spec fn destroy_form(l: Seq<char>) -> Option<StatementView> {
    match keyword_actor(l, destroy_kw()) {
        Some(a) => Some(StatementView::Destroy(a)),
        None => None,
    }
}

/// A frame of kind `k`, opened with its keyword and an optional label.
pub open spec fn frame_form(l: Seq<char>, k: FrameKind) -> Option<StatementView> {
    if word_at(l, 0, frame_kind_name(k)) {
        Some(
            StatementView::FrameOpen {
                kind: k,
                label: trim(l.subrange(frame_kind_name(k).len() as int, l.len() as int)),
            },
        )
    } else {
        None
    }
}

/// `else [label]`.
pub open spec fn else_form(l: Seq<char>) -> Option<StatementView> {
    if word_at(l, 0, else_kw()) {
        Some(StatementView::FrameElse { label: trim(l.subrange(4, l.len() as int)) })
    } else {
        None
    }
}

/// `end [anything]`.
pub open spec fn end_form(l: Seq<char>) -> Option<StatementView> {
    if word_at(l, 0, end_kw()) {
        Some(StatementView::FrameEnd)
    } else {
        None
    }
}

// ---------------------------------------------------------------------------
// Parsing the statement forms
// ---------------------------------------------------------------------------

/// An optional statement, by its view.
pub open spec fn opt_statement_view(o: Option<Statement>) -> Option<StatementView> {
    match o {
        Some(st) => Some(st@),
        None => None,
    }
}

fn title_kw_chars() -> (r: &'static [char])
    ensures
        r@ == title_kw(),
{
    let r: &'static [char] = &['t', 'i', 't', 'l', 'e'];
    assert(r@ =~= title_kw());
    r
}

fn participant_kw_chars() -> (r: &'static [char])
    ensures
        r@ == participant_kw(),
{
    let r: &'static [char] = &['p', 'a', 'r', 't', 'i', 'c', 'i', 'p', 'a', 'n', 't'];
    assert(r@ =~= participant_kw());
    r
}

fn note_kw_chars() -> (r: &'static [char])
    ensures
        r@ == note_kw(),
{
    let r: &'static [char] = &['n', 'o', 't', 'e'];
    assert(r@ =~= note_kw());
    r
}

fn left_kw_chars() -> (r: &'static [char])
    ensures
        r@ == left_kw(),
{
    let r: &'static [char] = &['l', 'e', 'f', 't'];
    assert(r@ =~= left_kw());
    r
}

fn right_kw_chars() -> (r: &'static [char])
    ensures
        r@ == right_kw(),
{
    let r: &'static [char] = &['r', 'i', 'g', 'h', 't'];
    assert(r@ =~= right_kw());
    r
}

fn of_kw_chars() -> (r: &'static [char])
    ensures
        r@ == of_kw(),
{
    let r: &'static [char] = &['o', 'f'];
    assert(r@ =~= of_kw());
    r
}

fn over_kw_chars() -> (r: &'static [char])
    ensures
        r@ == over_kw(),
{
    let r: &'static [char] = &['o', 'v', 'e', 'r'];
    assert(r@ =~= over_kw());
    r
}

fn activate_kw_chars() -> (r: &'static [char])
    ensures
        r@ == activate_kw(),
{
    let r: &'static [char] = &['a', 'c', 't', 'i', 'v', 'a', 't', 'e'];
    assert(r@ =~= activate_kw());
    r
}

fn deactivate_kw_chars() -> (r: &'static [char])
    ensures
        r@ == deactivate_kw(),
{
    let r: &'static [char] = &['d', 'e', 'a', 'c', 't', 'i', 'v', 'a', 't', 'e'];
    assert(r@ =~= deactivate_kw());
    r
}

fn destroy_kw_chars() -> (r: &'static [char])
    ensures
        r@ == destroy_kw(),
{
    let r: &'static [char] = &['d', 'e', 's', 't', 'r', 'o', 'y'];
    assert(r@ =~= destroy_kw());
    r
}

fn else_kw_chars() -> (r: &'static [char])
    ensures
        r@ == else_kw(),
{
    let r: &'static [char] = &['e', 'l', 's', 'e'];
    assert(r@ =~= else_kw());
    r
}

fn end_kw_chars() -> (r: &'static [char])
    ensures
        r@ == end_kw(),
{
    let r: &'static [char] = &['e', 'n', 'd'];
    assert(r@ =~= end_kw());
    r
}

fn frame_kw_chars(k: FrameKind) -> (r: &'static [char])
    ensures
        r@ == frame_kind_name(k),
{
    let r: &'static [char] = match k {
        FrameKind::Alt => &['a', 'l', 't'],
        FrameKind::Opt => &['o', 'p', 't'],
        FrameKind::Loop => &['l', 'o', 'o', 'p'],
        FrameKind::Par => &['p', 'a', 'r'],
        FrameKind::Critical => &['c', 'r', 'i', 't', 'i', 'c', 'a', 'l'],
        FrameKind::Break => &['b', 'r', 'e', 'a', 'k'],
    };
    assert(r@ =~= frame_kind_name(k));
    r
}

/// Parses `title[:] <text>`.
fn title_stmt(l: &Vec<char>) -> (r: Option<Statement>)
    ensures
        opt_statement_view(r) == title_form(l@),
{
    let n = l.len();
    assert(l@.subrange(0, n as int) =~= l@);
    if !(kw_at_exec(l, 0, title_kw_chars()) && (n == 5 || l[5] == ':' || is_ws_char(l[5]))) {
        return None;
    }
    let a = skip_ws_in(l, 0, n, 5);
    let b = if a < n && l[a] == ':' {
        a + 1
    } else {
        a
    };
    let (x, y) = trim_in(l, b, n);
    let t = unescape_in(l, x, y);
    Some(Statement::Title(t))
}

/// The first index in `lo..hi` where ` as ` stands, measured in `l[lo..hi]`.
fn find_as_in(l: &Vec<char>, lo: usize, hi: usize) -> (r: usize)
    requires
        lo <= hi <= l@.len(),
    ensures
        r - lo == find_as_from(l@.subrange(lo as int, hi as int), 0),
        lo <= r <= hi,
{
    let ghost t = l@.subrange(lo as int, hi as int);
    let mut k = lo;
    while hi >= 4 && k <= hi - 4 && !(l[k] == ' ' && ci_eq_exec(l[k + 1], 'a') && ci_eq_exec(
        l[k + 2],
        's',
    ) && l[k + 3] == ' ')
        invariant
            lo <= k <= hi <= l@.len(),
            t == l@.subrange(lo as int, hi as int),
            find_as_from(t, 0) == find_as_from(t, k - lo),
        decreases hi - k,
    {
        k = k + 1;
    }
    if hi < 4 || k > hi - 4 {
        hi
    } else {
        k
    }
}

/// Parses `participant <actor>` and `participant <actor> as <alias>`.
fn participant_stmt(l: &Vec<char>) -> (r: Option<Statement>)
    ensures
        opt_statement_view(r) == participant_form(l@),
{
    let n = l.len();
    if !word_at_exec(l, 0, participant_kw_chars()) {
        return None;
    }
    let (r0, r1) = trim_in(l, 11, n);
    let ghost rest = l@.subrange(r0 as int, r1 as int);
    if r0 == r1 {
        return None;
    }
    let p = find_as_in(l, r0, r1);
    proof {
        lemma_find_as_bounds(rest, 0);
    }
    if p < r1 {
        let (a0, a1) = trim_in(l, r0, p);
        let (b0, b1) = trim_in(l, p + 4, r1);
        assert(rest.subrange(0, p - r0) =~= l@.subrange(r0 as int, p as int));
        assert(rest.subrange(p - r0 + 4, rest.len() as int) =~= l@.subrange(p + 4, r1 as int));
        Some(
            Statement::Participant {
                actor: string_in(l, a0, a1),
                alias: Some(string_in(l, b0, b1)),
            },
        )
    } else {
        Some(Statement::Participant { actor: string_in(l, r0, r1), alias: None })
    }
}

/// The actor after the keyword `kw` at the start of `l`.
fn keyword_actor_exec(l: &Vec<char>, kw: &[char]) -> (r: Option<String>)
    ensures
        opt_string_view(r) == keyword_actor(l@, kw@),
{
    let n = l.len();
    if !word_at_exec(l, 0, kw) {
        return None;
    }
    let (a, b) = trim_in(l, kw.len(), n);
    if a == b {
        None
    } else {
        Some(string_in(l, a, b))
    }
}

/// Parses `activate <actor>`, `deactivate <actor>` and `destroy <actor>`.
fn actor_stmt(l: &Vec<char>) -> (r: Option<Statement>)
    ensures
        opt_statement_view(r) == (if activate_form(l@) is Some {
            activate_form(l@)
        } else if deactivate_form(l@) is Some {
            deactivate_form(l@)
        } else {
            destroy_form(l@)
        }),
{
    if let Some(a) = keyword_actor_exec(l, activate_kw_chars()) {
        return Some(Statement::Activate(a));
    }
    if let Some(a) = keyword_actor_exec(l, deactivate_kw_chars()) {
        return Some(Statement::Deactivate(a));
    }
    if let Some(a) = keyword_actor_exec(l, destroy_kw_chars()) {
        return Some(Statement::Destroy(a));
    }
    None
}

/// Parses the opening line of a frame of kind `k`.
fn frame_stmt(l: &Vec<char>, k: FrameKind) -> (r: Option<Statement>)
    ensures
        opt_statement_view(r) == frame_form(l@, k),
{
    let n = l.len();
    let kw = frame_kw_chars(k);
    if !word_at_exec(l, 0, kw) {
        return None;
    }
    let (a, b) = trim_in(l, kw.len(), n);
    Some(Statement::FrameOpen { kind: k, label: string_in(l, a, b) })
}

/// Parses `else [label]` and `end [anything]`.
fn else_end_stmt(l: &Vec<char>) -> (r: Option<Statement>)
    ensures
        opt_statement_view(r) == (if else_form(l@) is Some {
            else_form(l@)
        } else {
            end_form(l@)
        }),
{
    let n = l.len();
    if word_at_exec(l, 0, else_kw_chars()) {
        let (a, b) = trim_in(l, 4, n);
        return Some(Statement::FrameElse { label: string_in(l, a, b) });
    }
    if word_at_exec(l, 0, end_kw_chars()) {
        return Some(Statement::FrameEnd);
    }
    None
}

// ---------------------------------------------------------------------------
// Notes
// ---------------------------------------------------------------------------

/// `<actor>[: <text>]` from index `start` on, beside the actor (`left` or right).
pub open spec fn note_side(l: Seq<char>, start: int, left: bool) -> Option<StatementView> {
    let c = find_char_from(l, ':', start);
    let actor = trim(l.subrange(start, c));
    if actor.len() == 0 {
        None
    } else {
        Some(
            StatementView::Note {
                position: if left {
                    NotePositionView::LeftOf(actor)
                } else {
                    NotePositionView::RightOf(actor)
                },
                text: tail_text(l, c),
            },
        )
    }
}

/// `<actor>[, <actor>][: <text>]` from index `start` on, over one actor or
/// over the span between two.
pub open spec fn note_over(l: Seq<char>, start: int) -> Option<StatementView> {
    let c = find_char_from(l, ':', start);
    let k = find_char_from(l, ',', start);
    if k < c {
        let a = trim(l.subrange(start, k));
        let b = trim(l.subrange(k + 1, c));
        if a.len() == 0 || b.len() == 0 {
            None
        } else {
            Some(
                StatementView::Note {
                    position: NotePositionView::OverBetween(a, b),
                    text: tail_text(l, c),
                },
            )
        }
    } else {
        let a = trim(l.subrange(start, c));
        if a.len() == 0 {
            None
        } else {
            Some(StatementView::Note { position: NotePositionView::Over(a), text: tail_text(l, c) })
        }
    }
}

/// `note left of ...`, `note right of ...`, `note over ...`.
pub open spec fn note_form(l: Seq<char>) -> Option<StatementView> {
    if word_at(l, 0, note_kw()) {
        let a = skip_ws(l, 4);
        if word_at(l, a, left_kw()) {
            let b = skip_ws(l, a + 4);
            if word_at(l, b, of_kw()) {
                note_side(l, skip_ws(l, b + 2), true)
            } else {
                None
            }
        } else if word_at(l, a, right_kw()) {
            let b = skip_ws(l, a + 5);
            if word_at(l, b, of_kw()) {
                note_side(l, skip_ws(l, b + 2), false)
            } else {
                None
            }
        } else if word_at(l, a, over_kw()) {
            note_over(l, skip_ws(l, a + 4))
        } else {
            None
        }
    } else {
        None
    }
}

/// The text after a `:` at index `c` (empty when `c` is the end of `l`).
fn tail_text_exec(l: &Vec<char>, c: usize) -> (r: String)
    requires
        c <= l@.len(),
    ensures
        r@ == tail_text(l@, c as int),
{
    let n = l.len();
    if c < n {
        let (a, b) = trim_in(l, c + 1, n);
        unescape_in(l, a, b)
    } else {
        String::new()
    }
}

fn note_side_exec(l: &Vec<char>, start: usize, left: bool) -> (r: Option<Statement>)
    requires
        start <= l@.len(),
    ensures
        opt_statement_view(r) == note_side(l@, start as int, left),
{
    let n = l.len();
    assert(l@.subrange(0, n as int) =~= l@);
    let c = find_char_in(l, 0, n, ':', start);
    let (a, b) = trim_in(l, start, c);
    if a == b {
        return None;
    }
    let actor = string_in(l, a, b);
    let position = if left {
        NotePosition::LeftOf(actor)
    } else {
        NotePosition::RightOf(actor)
    };
    Some(Statement::Note { position, text: tail_text_exec(l, c) })
}

fn note_over_exec(l: &Vec<char>, start: usize) -> (r: Option<Statement>)
    requires
        start <= l@.len(),
    ensures
        opt_statement_view(r) == note_over(l@, start as int),
{
    let n = l.len();
    assert(l@.subrange(0, n as int) =~= l@);
    let c = find_char_in(l, 0, n, ':', start);
    let k = find_char_in(l, 0, n, ',', start);
    if k < c {
        let (a0, a1) = trim_in(l, start, k);
        let (b0, b1) = trim_in(l, k + 1, c);
        if a0 == a1 || b0 == b1 {
            return None;
        }
        let position = NotePosition::OverBetween(string_in(l, a0, a1), string_in(l, b0, b1));
        Some(Statement::Note { position, text: tail_text_exec(l, c) })
    } else {
        let (a0, a1) = trim_in(l, start, c);
        if a0 == a1 {
            return None;
        }
        let position = NotePosition::Over(string_in(l, a0, a1));
        Some(Statement::Note { position, text: tail_text_exec(l, c) })
    }
}

/// Parses the three forms of a note.
#[verifier::rlimit(30)]
fn note_stmt(l: &Vec<char>) -> (r: Option<Statement>)
    ensures
        opt_statement_view(r) == note_form(l@),
{
    let n = l.len();
    assert(l@.subrange(0, n as int) =~= l@);
    if !word_at_exec(l, 0, note_kw_chars()) {
        return None;
    }
    let a = skip_ws_in(l, 0, n, 4);
    if word_at_exec(l, a, left_kw_chars()) {
        let b = skip_ws_in(l, 0, n, a + 4);
        if word_at_exec(l, b, of_kw_chars()) {
            let c = skip_ws_in(l, 0, n, b + 2);
            note_side_exec(l, c, true)
        } else {
            None
        }
    } else if word_at_exec(l, a, right_kw_chars()) {
        let b = skip_ws_in(l, 0, n, a + 5);
        if word_at_exec(l, b, of_kw_chars()) {
            let c = skip_ws_in(l, 0, n, b + 2);
            note_side_exec(l, c, false)
        } else {
            None
        }
    } else if word_at_exec(l, a, over_kw_chars()) {
        let c = skip_ws_in(l, 0, n, a + 4);
        note_over_exec(l, c)
    } else {
        None
    }
}

// ---------------------------------------------------------------------------
// Messages
// ---------------------------------------------------------------------------

/// The arrow that an arrow token denotes: `->>` solid closed, `->` solid open,
/// `-->>` dashed closed, `-->` dashed open, anything else solid open.
pub open spec fn arrow_of_token(t: Seq<char>) -> Arrow {
    if t.len() == 3 && t[0] == '-' && t[1] == '>' && t[2] == '>' {
        Arrow { line_style: LineStyle::Solid, head_style: HeadStyle::Closed }
    } else if t.len() == 2 && t[0] == '-' && t[1] == '>' {
        Arrow { line_style: LineStyle::Solid, head_style: HeadStyle::Open }
    } else if t.len() == 4 && t[0] == '-' && t[1] == '-' && t[2] == '>' && t[3] == '>' {
        Arrow { line_style: LineStyle::Dashed, head_style: HeadStyle::Closed }
    } else if t.len() == 3 && t[0] == '-' && t[1] == '-' && t[2] == '>' {
        Arrow { line_style: LineStyle::Dashed, head_style: HeadStyle::Open }
    } else {
        Arrow { line_style: LineStyle::Solid, head_style: HeadStyle::Open }
    }
}

/// An arrow (`->` or `-->`) begins at index `i`.
pub open spec fn is_arrow_start(l: Seq<char>, i: int) -> bool {
    &&& 0 <= i
    &&& i + 1 < l.len()
    &&& l[i] == '-'
    &&& (l[i + 1] == '>' || (i + 2 < l.len() && l[i + 1] == '-' && l[i + 2] == '>'))
}

/// The first index at or after `i` where an arrow begins, or `l.len()`.
pub open spec fn find_arrow_from(l: Seq<char>, i: int) -> int
    decreases l.len() - i,
{
    if i < 0 || i >= l.len() {
        l.len() as int
    } else if is_arrow_start(l, i) {
        i
    } else {
        find_arrow_from(l, i + 1)
    }
}

/// The end of the arrow token that begins at `i` (one more `>` makes the head
/// closed).
pub open spec fn arrow_token_end(l: Seq<char>, i: int) -> int {
    let j = if l[i + 1] == '-' {
        i + 3
    } else {
        i + 2
    };
    if j < l.len() && l[j] == '>' {
        j + 1
    } else {
        j
    }
}

pub open spec fn is_digit(c: char) -> bool {
    '0' <= c && c <= '9'
}

/// The first index at or after `i` that does not hold a decimal digit.
pub open spec fn digits_end(l: Seq<char>, i: int) -> int
    decreases l.len() - i,
{
    if 0 <= i < l.len() && is_digit(l[i]) {
        digits_end(l, i + 1)
    } else {
        i
    }
}

/// The number that a sequence of decimal digits denotes.
pub open spec fn digits_value(s: Seq<char>) -> nat
    decreases s.len(),
{
    if s.len() == 0 {
        0
    } else {
        digits_value(s.drop_last()) * 10 + ((s.last() as u32) - 48) as nat
    }
}

/// A delay `(<digits>)` begins at `k`.
pub open spec fn has_delay(l: Seq<char>, k: int) -> bool {
    &&& 0 <= k < l.len()
    &&& l[k] == '('
    &&& digits_end(l, k + 1) > k + 1
    &&& digits_end(l, k + 1) < l.len()
    &&& l[digits_end(l, k + 1)] == ')'
}

/// Where the text after a delay (if any) at `k` begins.
pub open spec fn delay_end(l: Seq<char>, k: int) -> int {
    if has_delay(l, k) {
        digits_end(l, k + 1) + 1
    } else {
        k
    }
}

/// The delay written at `k`, when there is one and it fits in a `u8`.
pub open spec fn delay_of(l: Seq<char>, k: int) -> Option<u8> {
    if has_delay(l, k) && digits_value(l.subrange(k + 1, digits_end(l, k + 1))) <= 255 {
        Some(digits_value(l.subrange(k + 1, digits_end(l, k + 1))) as u8)
    } else {
        None
    }
}

/// The activation modifier written at `k`, if any.
pub open spec fn activation_at(l: Seq<char>, k: int) -> Option<ActivationModifier> {
    if 0 <= k < l.len() && l[k] == '+' {
        Some(ActivationModifier::Activate)
    } else if 0 <= k < l.len() && l[k] == '-' {
        Some(ActivationModifier::Deactivate)
    } else {
        None
    }
}

/// `<from><arrow>[(<digits>)][+|-]<to>[: <text>]`.
pub open spec fn message_form(l: Seq<char>) -> Option<StatementView> {
    let i = find_arrow_from(l, 0);
    if i >= l.len() || find_char_from(l, ':', 0) < i {
        None
    } else {
        let from = trim(l.subrange(0, i));
        let k0 = arrow_token_end(l, i);
        let k1 = skip_ws(l, k0);
        let k2 = skip_ws(l, delay_end(l, k1));
        let activation = activation_at(l, k2);
        let k3 = if activation is Some {
            k2 + 1
        } else {
            k2
        };
        let c = find_char_from(l, ':', k3);
        let to = trim(l.subrange(k3, c));
        if from.len() == 0 || to.len() == 0 {
            None
        } else {
            Some(
                StatementView::Message {
                    from,
                    to,
                    arrow: arrow_of_token(l.subrange(i, k0)),
                    text: tail_text(l, c),
                    activation,
                    delay: delay_of(l, k1),
                },
            )
        }
    }
}

pub proof fn lemma_find_arrow_bounds(l: Seq<char>, i: int)
    requires
        0 <= i <= l.len(),
    ensures
        i <= find_arrow_from(l, i) <= l.len(),
        find_arrow_from(l, i) < l.len() ==> is_arrow_start(l, find_arrow_from(l, i)),
    decreases l.len() - i,
{
    if i < l.len() && !is_arrow_start(l, i) {
        lemma_find_arrow_bounds(l, i + 1);
    }
}

pub proof fn lemma_digits_end_bounds(l: Seq<char>, i: int)
    requires
        0 <= i <= l.len(),
    ensures
        i <= digits_end(l, i) <= l.len(),
    decreases l.len() - i,
{
    if i < l.len() && is_digit(l[i]) {
        lemma_digits_end_bounds(l, i + 1);
    }
}

/// The arrow that the token `l[lo..hi]` denotes.
fn arrow_in(l: &Vec<char>, lo: usize, hi: usize) -> (a: Arrow)
    requires
        lo <= hi <= l@.len(),
    ensures
        a == arrow_of_token(l@.subrange(lo as int, hi as int)),
{
    let len = hi - lo;
    if len == 3 && l[lo] == '-' && l[lo + 1] == '>' && l[lo + 2] == '>' {
        Arrow { line_style: LineStyle::Solid, head_style: HeadStyle::Closed }
    } else if len == 2 && l[lo] == '-' && l[lo + 1] == '>' {
        Arrow { line_style: LineStyle::Solid, head_style: HeadStyle::Open }
    } else if len == 4 && l[lo] == '-' && l[lo + 1] == '-' && l[lo + 2] == '>' && l[lo + 3] == '>' {
        Arrow { line_style: LineStyle::Dashed, head_style: HeadStyle::Closed }
    } else if len == 3 && l[lo] == '-' && l[lo + 1] == '-' && l[lo + 2] == '>' {
        Arrow { line_style: LineStyle::Dashed, head_style: HeadStyle::Open }
    } else {
        Arrow { line_style: LineStyle::Solid, head_style: HeadStyle::Open }
    }
}

/// Maps an arrow token (`->`, `->>`, `-->`, `-->>`) to its arrow; any other
/// text gives a solid open arrow.
pub fn parse_arrow(s: &str) -> (a: Arrow)
    ensures
        a == arrow_of_token(s@),
{
    let v = chars_of(s);
    assert(v@.subrange(0, v@.len() as int) =~= v@);
    arrow_in(&v, 0, v.len())
}

/// The first index at or after `i` where an arrow begins, or `l.len()`.
fn find_arrow_exec(l: &Vec<char>, i: usize) -> (r: usize)
    requires
        i <= l@.len(),
    ensures
        r == find_arrow_from(l@, i as int),
{
    let n = l.len();
    let mut k = i;
    while k < n && !(k + 1 < n && l[k] == '-' && (l[k + 1] == '>' || (k + 2 < n && l[k + 1] == '-'
        && l[k + 2] == '>')))
        invariant
            i <= k <= n,
            n == l@.len(),
            find_arrow_from(l@, i as int) == find_arrow_from(l@, k as int),
        decreases n - k,
    {
        k = k + 1;
    }
    k
}

/// The end of a delay at `k` (or `k`) and the delay's value.
fn delay_exec(l: &Vec<char>, k: usize) -> (r: (usize, Option<u8>))
    requires
        k <= l@.len(),
    ensures
        r.0 == delay_end(l@, k as int),
        r.1 == delay_of(l@, k as int),
        k <= r.0 <= l@.len(),
{
    let n = l.len();
    if !(k < n && l[k] == '(') {
        return (k, None);
    }
    let mut d = k + 1;
    let mut acc: u32 = 0;
    while d < n && '0' <= l[d] && l[d] <= '9'
        invariant
            k < d <= n,
            n == l@.len(),
            digits_end(l@, k + 1) == digits_end(l@, d as int),
            acc == (if digits_value(l@.subrange(k + 1, d as int)) > 256 {
                256
            } else {
                digits_value(l@.subrange(k + 1, d as int))
            }),
        decreases n - d,
    {
        let ghost before = digits_value(l@.subrange(k + 1, d as int));
        let dig = (l[d] as u32) - 48;
        assert(l@.subrange(k + 1, d + 1).drop_last() =~= l@.subrange(k + 1, d as int));
        assert(digits_value(l@.subrange(k + 1, d + 1)) == before * 10 + dig);
        if acc >= 256 {
            acc = 256;
        } else {
            let v = acc * 10 + dig;
            acc = if v > 256 {
                256
            } else {
                v
            };
        }
        d = d + 1;
    }
    if d > k + 1 && d < n && l[d] == ')' {
        if acc <= 255 {
            (d + 1, Some(acc as u8))
        } else {
            (d + 1, None)
        }
    } else {
        (k, None)
    }
}

/// The modifiers after an arrow that ends at `k0`: where the target begins,
/// the delay and the activation.
fn modifiers_exec(l: &Vec<char>, k0: usize) -> (r: (usize, Option<u8>, Option<ActivationModifier>))
    requires
        k0 <= l@.len(),
    ensures
        ({
            let k1 = skip_ws(l@, k0 as int);
            let k2 = skip_ws(l@, delay_end(l@, k1));
            &&& r.1 == delay_of(l@, k1)
            &&& r.2 == activation_at(l@, k2)
            &&& r.0 == (if r.2 is Some {
                k2 + 1
            } else {
                k2
            })
            &&& k0 <= r.0 <= l@.len()
        }),
{
    let n = l.len();
    assert(l@.subrange(0, n as int) =~= l@);
    let k1 = skip_ws_in(l, 0, n, k0);
    let (de, delay) = delay_exec(l, k1);
    let k2 = skip_ws_in(l, 0, n, de);
    let activation = if k2 < n && l[k2] == '+' {
        Some(ActivationModifier::Activate)
    } else if k2 < n && l[k2] == '-' {
        Some(ActivationModifier::Deactivate)
    } else {
        None
    };
    let k3 = if activation.is_some() {
        k2 + 1
    } else {
        k2
    };
    (k3, delay, activation)
}

/// Parses a message.
fn message_stmt(l: &Vec<char>) -> (r: Option<Statement>)
    ensures
        opt_statement_view(r) == message_form(l@),
{
    let n = l.len();
    assert(l@.subrange(0, n as int) =~= l@);
    let i = find_arrow_exec(l, 0);
    proof {
        lemma_find_arrow_bounds(l@, 0);
    }
    if i >= n {
        return None;
    }
    let c0 = find_char_in(l, 0, n, ':', 0);
    if c0 < i {
        return None;
    }
    let (f0, f1) = trim_in(l, 0, i);
    let j = if l[i + 1] == '-' {
        i + 3
    } else {
        i + 2
    };
    let k0 = if j < n && l[j] == '>' {
        j + 1
    } else {
        j
    };
    let arrow = arrow_in(l, i, k0);
    let (k3, delay, activation) = modifiers_exec(l, k0);
    let c = find_char_in(l, 0, n, ':', k3);
    let (t0, t1) = trim_in(l, k3, c);
    if f0 == f1 || t0 == t1 {
        return None;
    }
    let text = tail_text_exec(l, c);
    Some(
        Statement::Message {
            from: string_in(l, f0, f1),
            to: string_in(l, t0, t1),
            arrow,
            text,
            activation,
            delay,
        },
    )
}

// ---------------------------------------------------------------------------
// Lines and documents
// ---------------------------------------------------------------------------

/// The statement that a trimmed line holds: the first form that matches.
#[verifier::opaque]
pub open spec fn statement_form(l: Seq<char>) -> Option<StatementView> {
    if title_form(l) is Some {
        title_form(l)
    } else if participant_form(l) is Some {
        participant_form(l)
    } else if note_form(l) is Some {
        note_form(l)
    } else if activate_form(l) is Some {
        activate_form(l)
    } else if deactivate_form(l) is Some {
        deactivate_form(l)
    } else if destroy_form(l) is Some {
        destroy_form(l)
    } else if frame_form(l, FrameKind::Alt) is Some {
        frame_form(l, FrameKind::Alt)
    } else if frame_form(l, FrameKind::Opt) is Some {
        frame_form(l, FrameKind::Opt)
    } else if frame_form(l, FrameKind::Loop) is Some {
        frame_form(l, FrameKind::Loop)
    } else if frame_form(l, FrameKind::Par) is Some {
        frame_form(l, FrameKind::Par)
    } else if frame_form(l, FrameKind::Critical) is Some {
        frame_form(l, FrameKind::Critical)
    } else if frame_form(l, FrameKind::Break) is Some {
        frame_form(l, FrameKind::Break)
    } else if else_form(l) is Some {
        else_form(l)
    } else if end_form(l) is Some {
        end_form(l)
    } else {
        message_form(l)
    }
}

/// A trimmed line that carries no statement: empty, or a `#` comment.
pub open spec fn line_is_blank(t: Seq<char>) -> bool {
    t.len() == 0 || t[0] == '#'
}

/// The message for a line (number `n`, trimmed text `t`) that holds no
/// statement.
pub open spec fn parse_error_message(n: nat, t: Seq<char>) -> Seq<char> {
    seq!['l', 'i', 'n', 'e', ' '] + decimal(n) + seq![
        ':',
        ' ',
        'u',
        'n',
        'r',
        'e',
        'c',
        'o',
        'g',
        'n',
        'i',
        's',
        'e',
        'd',
        ' ',
        's',
        't',
        'a',
        't',
        'e',
        'm',
        'e',
        'n',
        't',
        ':',
        ' ',
    ] + t
}

/// `r` with `prefix` put before its statements.
pub open spec fn prepend(
    prefix: Seq<StatementView>,
    r: Result<Seq<StatementView>, Seq<char>>,
) -> Result<Seq<StatementView>, Seq<char>> {
    match r {
        Ok(v) => Ok(prefix + v),
        Err(m) => Err(m),
    }
}

/// The statements of the trimmed line `t`: none for a blank line, else the
/// one it holds.
pub open spec fn line_statements(t: Seq<char>) -> Seq<StatementView> {
    if line_is_blank(t) {
        Seq::empty()
    } else {
        match statement_form(t) {
            Some(st) => seq![st],
            None => Seq::empty(),
        }
    }
}

/// The statements of the lines of `s` from index `p` on, the first of them
/// being line number `n`; or the message for the first line that holds no
/// statement.
pub open spec fn parse_lines_from(s: Seq<char>, p: int, n: nat) -> Result<
    Seq<StatementView>,
    Seq<char>,
>
    decreases s.len() - p,
{
    if p < 0 || p > s.len() {
        Ok(Seq::empty())
    } else {
        let e = find_char_from(s, '\n', p);
        let t = trim(s.subrange(p, e));
        if !line_is_blank(t) && statement_form(t) is None {
            Err(parse_error_message(n, t))
        } else if e >= s.len() {
            Ok(line_statements(t))
        } else {
            proof {
                lemma_find_char_bounds(s, '\n', p);
            }
            prepend(line_statements(t), parse_lines_from(s, e + 1, n + 1))
        }
    }
}

/// The statements of a document, or the message for its first line that holds
/// no statement.
pub open spec fn document_of(s: Seq<char>) -> Result<Seq<StatementView>, Seq<char>> {
    parse_lines_from(s, 0, 1)
}

/// Parses one trimmed line.
fn parse_statement(l: &Vec<char>) -> (r: Option<Statement>)
    ensures
        opt_statement_view(r) == statement_form(l@),
{
    reveal(statement_form);
    if let Some(st) = title_stmt(l) {
        return Some(st);
    }
    if let Some(st) = participant_stmt(l) {
        return Some(st);
    }
    if let Some(st) = note_stmt(l) {
        return Some(st);
    }
    if let Some(st) = actor_stmt(l) {
        return Some(st);
    }
    if let Some(st) = frame_stmt(l, FrameKind::Alt) {
        return Some(st);
    }
    if let Some(st) = frame_stmt(l, FrameKind::Opt) {
        return Some(st);
    }
    if let Some(st) = frame_stmt(l, FrameKind::Loop) {
        return Some(st);
    }
    if let Some(st) = frame_stmt(l, FrameKind::Par) {
        return Some(st);
    }
    if let Some(st) = frame_stmt(l, FrameKind::Critical) {
        return Some(st);
    }
    if let Some(st) = frame_stmt(l, FrameKind::Break) {
        return Some(st);
    }
    if let Some(st) = else_end_stmt(l) {
        return Some(st);
    }
    message_stmt(l)
}

/// Parses a sequence diagram into its statements, line by line; fails with
/// `SeqDiagramError::Parse` on the first line that holds no statement.
pub fn parse_document(input: &str) -> (r: Result<Document, SeqDiagramError>)
    ensures
        match document_of(input@) {
            Ok(v) => r matches Ok(d) && d@ == v,
            Err(m) => r matches Err(SeqDiagramError::Parse(msg)) && msg@ == m,
        },
{
    let s = chars_of(input);
    let n = s.len();
    assert(s@.subrange(0, n as int) =~= s@);
    let mut stmts: Vec<Statement> = Vec::new();
    let mut p: usize = 0;
    let mut done: usize = 0;
    assert(statements_view(stmts@) =~= Seq::<StatementView>::empty());
    assert(Seq::<StatementView>::empty() + Seq::<StatementView>::empty() =~= Seq::<
        StatementView,
    >::empty());
    loop
        invariant
            p <= n,
            n == s@.len(),
            s@ == input@,
            s@.subrange(0, n as int) == s@,
            done <= p,
            document_of(s@) == prepend(
                statements_view(stmts@),
                parse_lines_from(s@, p as int, (done + 1) as nat),
            ),
        decreases n - p,
    {
        let ghost before = statements_view(stmts@);
        let e = find_char_in(&s, 0, n, '\n', p);
        let (a, b) = trim_in(&s, p, e);
        let ghost t = s@.subrange(a as int, b as int);
        if a < b && s[a] != '#' {
            let line = chars_in(&s, a, b);
            match parse_statement(&line) {
                Some(st) => {
                    stmts.push(st);
                    assert(statements_view(stmts@) =~= before.push(st@));
                },
                None => {
                    let mut msg = String::new();
                    push_chars(&mut msg, &['l', 'i', 'n', 'e', ' ']);
                    push_decimal(&mut msg, done + 1);
                    push_chars(
                        &mut msg,
                        &[
                            ':',
                            ' ',
                            'u',
                            'n',
                            'r',
                            'e',
                            'c',
                            'o',
                            'g',
                            'n',
                            'i',
                            's',
                            'e',
                            'd',
                            ' ',
                            's',
                            't',
                            'a',
                            't',
                            'e',
                            'm',
                            'e',
                            'n',
                            't',
                            ':',
                            ' ',
                        ],
                    );
                    push_chars(&mut msg, line.as_slice());
                    assert(msg@ =~= parse_error_message((done + 1) as nat, t));
                    assert(!line_is_blank(t));
                    assert(parse_lines_from(s@, p as int, (done + 1) as nat) == Err::<
                        Seq<StatementView>,
                        Seq<char>,
                    >(parse_error_message((done + 1) as nat, t)));
                    return Err(SeqDiagramError::Parse(msg));
                },
            }
        }
        assert(statements_view(stmts@) =~= before + line_statements(t));
        assert(!line_is_blank(t) ==> statement_form(t) is Some);
        if e >= n {
            assert(parse_lines_from(s@, p as int, (done + 1) as nat) == Ok::<
                Seq<StatementView>,
                Seq<char>,
            >(line_statements(t)));
            return Ok(Document { statements: stmts });
        }
        proof {
            let rest = parse_lines_from(s@, e + 1, (done + 2) as nat);
            match rest {
                Ok(v) => {
                    assert(before + (line_statements(t) + v) =~= (before + line_statements(t)) + v);
                },
                Err(m) => {},
            }
        }
        p = e + 1;
        done = done + 1;
    }
}

// ---------------------------------------------------------------------------
// Frame keywords
// ---------------------------------------------------------------------------

/// The frame kind that a lowercase word names (`alt`, `opt`, `loop`, `par`,
/// `critical`, `break`); any other word gives `Opt`.
pub open spec fn frame_kind_word(w: Seq<char>) -> FrameKind {
    if w == frame_kind_name(FrameKind::Alt) {
        FrameKind::Alt
    } else if w == frame_kind_name(FrameKind::Opt) {
        FrameKind::Opt
    } else if w == frame_kind_name(FrameKind::Loop) {
        FrameKind::Loop
    } else if w == frame_kind_name(FrameKind::Par) {
        FrameKind::Par
    } else if w == frame_kind_name(FrameKind::Critical) {
        FrameKind::Critical
    } else if w == frame_kind_name(FrameKind::Break) {
        FrameKind::Break
    } else {
        FrameKind::Opt
    }
}

/// The frame kind that a keyword names, in any case: the kind that its
/// Unicode lowercase form names.
pub open spec fn frame_kind_of(s: Seq<char>) -> FrameKind {
    frame_kind_word(lowercase(s))
}

/// Whether the characters `a` are the characters `b`.
fn same_chars(a: &Vec<char>, b: &[char]) -> (r: bool)
    ensures
        r == (a@ == b@),
{
    if a.len() != b.len() {
        return false;
    }
    let mut i: usize = 0;
    while i < a.len()
        invariant
            i <= a@.len() == b@.len(),
            forall|j: int| 0 <= j < i ==> a@[j] == b@[j],
        decreases a@.len() - i,
    {
        if a[i] != b[i] {
            return false;
        }
        i = i + 1;
    }
    assert(a@ =~= b@);
    true
}

/// Maps a frame keyword to its kind, after lowercasing it; any other text
/// gives `Opt`.
pub fn parse_frame_kind(s: &str) -> (k: FrameKind)
    ensures
        k == frame_kind_of(s@),
        ascii_text(s@) ==> k == frame_kind_word(ascii_lowercased(s@)),
        ascii_lower_letters(s@) ==> k == frame_kind_word(s@),
{
    proof {
        if ascii_lower_letters(s@) {
            lemma_ascii_lower_letters(s@);
        }
    }
    let lower = to_lowercase(s);
    let v = chars_of(lower.as_str());
    if same_chars(&v, frame_kw_chars(FrameKind::Alt)) {
        FrameKind::Alt
    } else if same_chars(&v, frame_kw_chars(FrameKind::Opt)) {
        FrameKind::Opt
    } else if same_chars(&v, frame_kw_chars(FrameKind::Loop)) {
        FrameKind::Loop
    } else if same_chars(&v, frame_kw_chars(FrameKind::Par)) {
        FrameKind::Par
    } else if same_chars(&v, frame_kw_chars(FrameKind::Critical)) {
        FrameKind::Critical
    } else if same_chars(&v, frame_kw_chars(FrameKind::Break)) {
        FrameKind::Break
    } else {
        FrameKind::Opt
    }
}

/// The keyword of a frame kind (as its tab shows it) is lowercase ASCII and
/// names the same kind, so that `parse_frame_kind` reads it back unchanged.
pub proof fn law_frame_kind_roundtrip(k: FrameKind)
    ensures
        ascii_lower_letters(frame_kind_name(k)),
        frame_kind_word(frame_kind_name(k)) == k,
{
    let name = frame_kind_name(k);
    let alt = frame_kind_name(FrameKind::Alt);
    let opt = frame_kind_name(FrameKind::Opt);
    let par = frame_kind_name(FrameKind::Par);
    let lp = frame_kind_name(FrameKind::Loop);
    let cr = frame_kind_name(FrameKind::Critical);
    if k != FrameKind::Alt && name.len() == 3 {
        assert(name[0] != alt[0]);
    }
    if k == FrameKind::Par {
        assert(name[0] != opt[0]);
    }
    if k == FrameKind::Break {
        assert(name[0] != lp[0]);
        assert(name.len() != cr.len());
    }
    if k == FrameKind::Critical {
        assert(name.len() != lp.len());
    }
}

// ---------------------------------------------------------------------------
// Laws
// ---------------------------------------------------------------------------

/// The joined text `a`, a line break, then `b`.
pub open spec fn joined(a: Seq<char>, b: Seq<char>) -> Seq<char> {
    a + seq!['\n'] + b
}

proof fn lemma_find_in_suffix(a: Seq<char>, b: Seq<char>, q: int)
    requires
        0 <= q <= b.len(),
    ensures
        find_char_from(joined(a, b), '\n', a.len() + 1 + q) == a.len() + 1 + find_char_from(
            b,
            '\n',
            q,
        ),
    decreases b.len() - q,
{
    let s = joined(a, b);
    if q < b.len() {
        assert(s[a.len() + 1 + q] == b[q]);
        if b[q] != '\n' {
            lemma_find_in_suffix(a, b, q + 1);
        }
    }
}

proof fn lemma_find_in_prefix(a: Seq<char>, b: Seq<char>, p: int)
    requires
        0 <= p <= a.len(),
    ensures
        find_char_from(joined(a, b), '\n', p) == find_char_from(a, '\n', p),
    decreases a.len() - p,
{
    let s = joined(a, b);
    if p < a.len() {
        assert(s[p] == a[p]);
        if a[p] != '\n' {
            lemma_find_in_prefix(a, b, p + 1);
        }
    } else {
        assert(s[p] == '\n');
    }
}

/// In the joined text, the lines after the break are those of `b`.
proof fn lemma_suffix_lines(a: Seq<char>, b: Seq<char>, q: int, n: nat)
    requires
        0 <= q <= b.len(),
    ensures
        parse_lines_from(joined(a, b), a.len() + 1 + q, n) == parse_lines_from(b, q, n),
    decreases b.len() - q,
{
    let s = joined(a, b);
    let p = a.len() + 1 + q;
    lemma_find_in_suffix(a, b, q);
    lemma_find_char_bounds(b, '\n', q);
    let e = find_char_from(b, '\n', q);
    assert(s.subrange(p, a.len() + 1 + e) =~= b.subrange(q, e));
    if e < b.len() {
        lemma_suffix_lines(a, b, e + 1, n + 1);
    }
}

/// A parse that succeeds does not depend on where its line numbers start.
proof fn lemma_ok_any_line_number(s: Seq<char>, p: int, n: nat, m: nat)
    requires
        0 <= p <= s.len(),
        parse_lines_from(s, p, n) is Ok,
    ensures
        parse_lines_from(s, p, m) == parse_lines_from(s, p, n),
    decreases s.len() - p,
{
    lemma_find_char_bounds(s, '\n', p);
    let e = find_char_from(s, '\n', p);
    if e < s.len() {
        let t = trim(s.subrange(p, e));
        if line_is_blank(t) || statement_form(t) is Some {
            lemma_ok_any_line_number(s, e + 1, n + 1, m + 1);
        }
    }
}

/// In the joined text, the lines before the break parse as in `a`: an error
/// there is the same error, and success continues with the lines of `b`.
proof fn lemma_prefix_lines(a: Seq<char>, b: Seq<char>, p: int, n: nat)
    requires
        0 <= p <= a.len(),
        forall|m: nat| #[trigger] parse_lines_from(b, 0, m) is Ok,
    ensures
        match parse_lines_from(a, p, n) {
            Err(msg) => parse_lines_from(joined(a, b), p, n) == Err::<Seq<StatementView>, Seq<char>>(
                msg,
            ),
            Ok(x) => parse_lines_from(joined(a, b), p, n) == Ok::<Seq<StatementView>, Seq<char>>(
                x + parse_lines_from(b, 0, 1)->Ok_0,
            ),
        },
    decreases a.len() - p,
{
    let s = joined(a, b);
    lemma_find_in_prefix(a, b, p);
    lemma_find_char_bounds(a, '\n', p);
    let e = find_char_from(a, '\n', p);
    assert(s.subrange(p, e) =~= a.subrange(p, e));
    let t = trim(a.subrange(p, e));
    let here = line_statements(t);
    if !line_is_blank(t) && statement_form(t) is None {
    } else if e < a.len() {
        lemma_prefix_lines(a, b, e + 1, n + 1);
        match parse_lines_from(a, e + 1, n + 1) {
            Ok(x) => {
                assert(here + (x + parse_lines_from(b, 0, 1)->Ok_0) =~= (here + x)
                    + parse_lines_from(b, 0, 1)->Ok_0);
            },
            Err(_) => {},
        }
    } else {
        assert(s.len() == a.len() + 1 + b.len());
        lemma_suffix_lines(a, b, 0, n + 1);
        assert(parse_lines_from(b, 0, n + 1) is Ok);
        assert(parse_lines_from(b, 0, 1) is Ok);
        lemma_ok_any_line_number(b, 0, 1, n + 1);
    }
}

/// A document is read line by line: joining two documents with a line break
/// gives the statements of the first followed by those of the second; and
/// when the first holds a line that is no statement, the joined document
/// fails with the same message.
pub proof fn law_documents_concatenate(a: Seq<char>, b: Seq<char>)
    ensures
        (document_of(a) is Ok && document_of(b) is Ok) ==> document_of(joined(a, b)) == Ok::<
            Seq<StatementView>,
            Seq<char>,
        >(document_of(a)->Ok_0 + document_of(b)->Ok_0),
        document_of(a) is Err ==> document_of(joined(a, b)) == document_of(a),
{
    if document_of(b) is Ok {
        assert forall|m: nat| #[trigger] parse_lines_from(b, 0, m) is Ok by {
            lemma_ok_any_line_number(b, 0, 1, m);
        }
        lemma_prefix_lines(a, b, 0, 1);
    }
    if document_of(a) is Err {
        lemma_prefix_lines_err(a, b, 0, 1);
    }
}

/// In the joined text, an error in the lines before the break is the same
/// error, whatever follows.
proof fn lemma_prefix_lines_err(a: Seq<char>, b: Seq<char>, p: int, n: nat)
    requires
        0 <= p <= a.len(),
        parse_lines_from(a, p, n) is Err,
    ensures
        parse_lines_from(joined(a, b), p, n) == parse_lines_from(a, p, n),
    decreases a.len() - p,
{
    let s = joined(a, b);
    lemma_find_in_prefix(a, b, p);
    lemma_find_char_bounds(a, '\n', p);
    let e = find_char_from(a, '\n', p);
    assert(s.subrange(p, e) =~= a.subrange(p, e));
    let t = trim(a.subrange(p, e));
    if !line_is_blank(t) && statement_form(t) is None {
    } else if e < a.len() {
        lemma_prefix_lines_err(a, b, e + 1, n + 1);
    }
}

proof fn lemma_no_newline(t: Seq<char>, p: int)
    requires
        0 <= p <= t.len(),
        forall|k: int| 0 <= k < t.len() ==> t[k] != '\n',
    ensures
        find_char_from(t, '\n', p) == t.len(),
    decreases t.len() - p,
{
    if p < t.len() {
        lemma_no_newline(t, p + 1);
    }
}

/// A text of one line holds the statement of that line: nothing when the line
/// is blank or a `#` comment, else the statement it matches; a line that
/// matches no statement is reported as line 1.
pub proof fn law_single_line(t: Seq<char>)
    requires
        forall|k: int| 0 <= k < t.len() ==> t[k] != '\n',
    ensures
        line_is_blank(trim(t)) ==> document_of(t) == Ok::<Seq<StatementView>, Seq<char>>(
            Seq::empty(),
        ),
        !line_is_blank(trim(t)) && statement_form(trim(t)) is Some ==> document_of(t) == Ok::<
            Seq<StatementView>,
            Seq<char>,
        >(seq![statement_form(trim(t))->Some_0]),
        !line_is_blank(trim(t)) && statement_form(trim(t)) is None ==> document_of(t) == Err::<
            Seq<StatementView>,
            Seq<char>,
        >(parse_error_message(1, trim(t))),
{
    lemma_no_newline(t, 0);
    assert(t.subrange(0, t.len() as int) =~= t);
}

/// The lines of `s` from index `p` on, split at each `\n` (the text after
/// the last break is a line too).
pub open spec fn lines_from(s: Seq<char>, p: int) -> Seq<Seq<char>>
    decreases s.len() - p,
{
    if p < 0 || p > s.len() {
        Seq::empty()
    } else {
        let e = find_char_from(s, '\n', p);
        if e >= s.len() {
            seq![s.subrange(p, s.len() as int)]
        } else {
            proof {
                lemma_find_char_bounds(s, '\n', p);
            }
            seq![s.subrange(p, e)] + lines_from(s, e + 1)
        }
    }
}

/// The lines of a document.
pub open spec fn lines(s: Seq<char>) -> Seq<Seq<char>> {
    lines_from(s, 0)
}

/// A line is blank (or a comment) or holds a statement, once trimmed.
pub open spec fn line_ok(l: Seq<char>) -> bool {
    line_is_blank(trim(l)) || statement_form(trim(l)) is Some
}

/// The statements of the lines `ls`, in order: none for a blank or comment
/// line, the one it holds for any other.
pub open spec fn statements_of_lines(ls: Seq<Seq<char>>) -> Seq<StatementView>
    decreases ls.len(),
{
    if ls.len() == 0 {
        Seq::empty()
    } else {
        line_statements(trim(ls[0])) + statements_of_lines(ls.drop_first())
    }
}

/// The number of lines among `ls` that are neither blank nor comments.
pub open spec fn statement_line_count(ls: Seq<Seq<char>>) -> nat
    decreases ls.len(),
{
    if ls.len() == 0 {
        0
    } else {
        (if line_is_blank(trim(ls[0])) {
            0nat
        } else {
            1nat
        }) + statement_line_count(ls.drop_first())
    }
}

proof fn lemma_lines_parse(s: Seq<char>, p: int, n: nat)
    requires
        0 <= p <= s.len(),
    ensures
        (forall|i: int| 0 <= i < lines_from(s, p).len() ==> line_ok(#[trigger] lines_from(s, p)[i]))
            ==> parse_lines_from(s, p, n) == Ok::<Seq<StatementView>, Seq<char>>(
            statements_of_lines(lines_from(s, p)),
        ),
        forall|i: int|
            0 <= i < lines_from(s, p).len() && !line_ok(#[trigger] lines_from(s, p)[i]) && (forall|
                j: int,
            | 0 <= j < i ==> line_ok(lines_from(s, p)[j])) ==> parse_lines_from(s, p, n) == Err::<
                Seq<StatementView>,
                Seq<char>,
            >(parse_error_message((n + i) as nat, trim(lines_from(s, p)[i]))),
    decreases s.len() - p,
{
    lemma_find_char_bounds(s, '\n', p);
    let e = find_char_from(s, '\n', p);
    let ls = lines_from(s, p);
    let l0 = s.subrange(p, e);
    assert(ls[0] == l0);
    assert(ls.len() >= 1);
    if e >= s.len() {
        assert(ls =~= seq![l0]);
        assert(ls.drop_first() =~= Seq::<Seq<char>>::empty());
        assert(statements_of_lines(ls.drop_first()) == Seq::<StatementView>::empty());
        assert(statements_of_lines(ls) =~= line_statements(trim(l0)));
    } else {
        lemma_lines_parse(s, e + 1, n + 1);
        let rest = lines_from(s, e + 1);
        assert(ls =~= seq![l0] + rest);
        assert(ls.drop_first() =~= rest);
        assert forall|i: int| 0 <= i < rest.len() implies rest[i] == ls[i + 1] by {}
        if forall|i: int| 0 <= i < ls.len() ==> line_ok(#[trigger] ls[i]) {
            assert forall|i: int| 0 <= i < rest.len() implies line_ok(#[trigger] rest[i]) by {
                assert(line_ok(ls[i + 1]));
            }
        }
        assert forall|i: int|
            0 <= i < ls.len() && !line_ok(#[trigger] ls[i]) && (forall|j: int|
                0 <= j < i ==> line_ok(ls[j])) implies parse_lines_from(s, p, n) == Err::<
            Seq<StatementView>,
            Seq<char>,
        >(parse_error_message((n + i) as nat, trim(ls[i]))) by {
            if i > 0 {
                assert(line_ok(ls[0]));
                assert(!line_ok(rest[i - 1]));
                assert forall|j: int| 0 <= j < i - 1 implies line_ok(rest[j]) by {
                    assert(line_ok(ls[j + 1]));
                }
                assert((n + 1 + (i - 1)) as nat == (n + i) as nat);
            }
        }
    }
}

proof fn lemma_statement_count(ls: Seq<Seq<char>>)
    requires
        forall|i: int| 0 <= i < ls.len() ==> line_ok(#[trigger] ls[i]),
    ensures
        statements_of_lines(ls).len() == statement_line_count(ls),
    decreases ls.len(),
{
    if ls.len() > 0 {
        assert(line_ok(ls[0]));
        assert forall|i: int| 0 <= i < ls.drop_first().len() implies line_ok(
            #[trigger] ls.drop_first()[i],
        ) by {
            assert(ls.drop_first()[i] == ls[i + 1]);
        }
        lemma_statement_count(ls.drop_first());
    }
}

/// A document holds one statement per statement line, in line order, and
/// none for a blank or comment (`#`) line; it parses exactly when each line
/// is blank, a comment or a statement, and otherwise fails naming the first
/// line that is not (counting lines from 1).
pub proof fn law_one_statement_per_line(s: Seq<char>)
    ensures
        document_of(s) is Ok <==> forall|i: int|
            0 <= i < lines(s).len() ==> line_ok(#[trigger] lines(s)[i]),
        document_of(s) is Ok ==> document_of(s)->Ok_0 == statements_of_lines(lines(s))
            && document_of(s)->Ok_0.len() == statement_line_count(lines(s)),
        forall|i: int|
            0 <= i < lines(s).len() && !line_ok(#[trigger] lines(s)[i]) && (forall|j: int|
                0 <= j < i ==> line_ok(lines(s)[j])) ==> document_of(s) == Err::<
                Seq<StatementView>,
                Seq<char>,
            >(parse_error_message((i + 1) as nat, trim(lines(s)[i]))),
{
    lemma_lines_parse(s, 0, 1);
    let ls = lines(s);
    if forall|i: int| 0 <= i < ls.len() ==> line_ok(#[trigger] ls[i]) {
        lemma_statement_count(ls);
    } else {
        let bad = choose|i: int| 0 <= i < ls.len() && !line_ok(#[trigger] ls[i]);
        lemma_first_bad(ls, bad);
    }
}

/// Among lines with one that is not a statement, there is a first such line.
proof fn lemma_first_bad(ls: Seq<Seq<char>>, k: int)
    requires
        0 <= k < ls.len(),
        !line_ok(ls[k]),
    ensures
        exists|i: int|
            0 <= i < ls.len() && !line_ok(#[trigger] ls[i]) && (forall|j: int|
                0 <= j < i ==> line_ok(ls[j])),
    decreases k,
{
    if exists|j: int| 0 <= j < k && !line_ok(#[trigger] ls[j]) {
        let j = choose|j: int| 0 <= j < k && !line_ok(#[trigger] ls[j]);
        lemma_first_bad(ls, j);
    } else {
        assert(forall|j: int| 0 <= j < k ==> line_ok(ls[j]));
    }
}

/// The word that opens a frame of each kind.
pub open spec fn frame_opening_word(k: FrameKind) -> Seq<char> {
    match k {
        FrameKind::Alt => "alt"@,
        FrameKind::Opt => "opt"@,
        FrameKind::Loop => "loop"@,
        FrameKind::Par => "par"@,
        FrameKind::Critical => "critical"@,
        FrameKind::Break => "break"@,
    }
}

/// The keyword `kw` does not open `l`: some character of `kw` differs from
/// the one at its place in `l`, or `l` is too short.
proof fn lemma_not_kw_at(l: Seq<char>, kw: Seq<char>, j: int)
    requires
        0 <= j < kw.len(),
        j < l.len() ==> !ci_eq(l[j], kw[j]),
    ensures
        !kw_at(l, 0, kw),
{
    if kw_at(l, 0, kw) {
        assert(ci_eq(l[0 + j], kw[j]));
    }
}

/// The trimmed rest of a frame's line, a space and then a label that neither
/// begins nor ends with whitespace, is the label.
proof fn lemma_trim_spaced_label(label: Seq<char>)
    requires
        label.len() > 0,
        !is_ws(label[0]),
        !is_ws(label.last()),
    ensures
        trim(seq![' '] + label) == label,
{
    let rest = seq![' '] + label;
    assert(is_ws(' '));
    assert(rest[0] == ' ');
    assert(rest[1] == label[0]);
    assert(skip_ws(rest, 1) == 1);
    assert(skip_ws(rest, 0) == 1);
    assert(rest[rest.len() - 1] == label.last());
    assert(back_ws(rest, 1, rest.len() as int) == rest.len());
    assert(trim(rest) =~= label);
}

/// The line of a frame of kind `k`: none of the forms tried before the
/// frames matches it, nor the frame of another kind, and the frame of kind
/// `k` gives the label.
proof fn lemma_frame_line_forms(k: FrameKind, label: Seq<char>, line: Seq<char>)
    requires
        label.len() == 0 || (!is_ws(label[0]) && !is_ws(label.last())),
        line == (if label.len() == 0 {
            frame_opening_word(k)
        } else {
            frame_opening_word(k) + seq![' '] + label
        }),
    ensures
        title_form(line) is None,
        participant_form(line) is None,
        note_form(line) is None,
        activate_form(line) is None,
        deactivate_form(line) is None,
        destroy_form(line) is None,
        forall|k2: FrameKind| k2 != k ==> #[trigger] frame_form(line, k2) is None,
        frame_form(line, k) == Some(StatementView::FrameOpen { kind: k, label }),
{
    reveal_strlit("alt");
    reveal_strlit("opt");
    reveal_strlit("loop");
    reveal_strlit("par");
    reveal_strlit("critical");
    reveal_strlit("break");
    let w = frame_opening_word(k);
    assert(w =~= frame_kind_name(k));
    assert forall|j: int| 0 <= j < w.len() implies line[j] == w[j] by {}
    lemma_not_kw_at(line, title_kw(), 0);
    lemma_not_kw_at(line, note_kw(), 0);
    lemma_not_kw_at(line, deactivate_kw(), 0);
    lemma_not_kw_at(line, destroy_kw(), 0);
    if k == FrameKind::Par {
        lemma_not_kw_at(line, participant_kw(), 3);
    } else {
        lemma_not_kw_at(line, participant_kw(), 0);
    }
    if k == FrameKind::Alt {
        lemma_not_kw_at(line, activate_kw(), 1);
    } else {
        lemma_not_kw_at(line, activate_kw(), 0);
    }
    assert forall|k2: FrameKind| k2 != k implies #[trigger] frame_form(line, k2) is None by {
        lemma_not_kw_at(line, frame_kind_name(k2), 0);
    }
    assert(is_ws(' '));
    assert(kw_at(line, 0, w));
    assert(word_at(line, 0, frame_kind_name(k)));
    let rest = line.subrange(w.len() as int, line.len() as int);
    if label.len() == 0 {
        assert(rest =~= Seq::<char>::empty());
        assert(trim(rest) =~= Seq::<char>::empty());
        assert(label =~= Seq::<char>::empty());
    } else {
        assert(rest =~= seq![' '] + label);
        lemma_trim_spaced_label(label);
    }
}

/// A line that opens a frame: the kind's word, alone or followed by a space
/// and a label that neither begins nor ends with whitespace, holds the
/// opening of a frame of that kind with that label.
pub proof fn law_frame_opening_line(k: FrameKind, label: Seq<char>)
    requires
        label.len() == 0 || (!is_ws(label[0]) && !is_ws(label.last())),
    ensures
        statement_form(
            if label.len() == 0 {
                frame_opening_word(k)
            } else {
                frame_opening_word(k) + seq![' '] + label
            },
        ) == Some(StatementView::FrameOpen { kind: k, label }),
{
    let line = if label.len() == 0 {
        frame_opening_word(k)
    } else {
        frame_opening_word(k) + seq![' '] + label
    };
    lemma_frame_line_forms(k, label, line);
    reveal(statement_form);
    assert(frame_form(line, FrameKind::Alt) is Some ==> k == FrameKind::Alt);
    assert(frame_form(line, FrameKind::Opt) is Some ==> k == FrameKind::Opt);
    assert(frame_form(line, FrameKind::Loop) is Some ==> k == FrameKind::Loop);
    assert(frame_form(line, FrameKind::Par) is Some ==> k == FrameKind::Par);
    assert(frame_form(line, FrameKind::Critical) is Some ==> k == FrameKind::Critical);
}

} // verus!
