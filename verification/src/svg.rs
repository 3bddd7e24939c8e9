//! Pieces of the SVG output whose text the library decides.
//!
//! Coordinates and lengths reach these functions already written as text
//! (two decimals, trailing zeros dropped); what is built from them here is
//! exact to the character.

use vstd::prelude::*;

use crate::ast::HeadStyle;
use crate::color::{format_opacity, opacity_text};
use crate::text::{decimal, push_char, push_decimal};

verus! {

/// How a text is placed relative to its anchor point.
#[derive(Debug, Clone, Copy, PartialEq, Eq, Structural)]
pub enum TextAnchor {
    Start,
    Middle,
}

/// The arguments of a path command, each behind a space.
pub open spec fn spaced(args: Seq<Seq<char>>) -> Seq<char>
    decreases args.len(),
{
    if args.len() == 0 {
        Seq::empty()
    } else {
        spaced(args.drop_last()) + seq![' '] + args.last()
    }
}

/// A path command: its letter, then its arguments separated by spaces, as in
/// `M10 20`.
pub open spec fn path_command(letter: char, args: Seq<Seq<char>>) -> Seq<char> {
    if args.len() == 0 {
        seq![letter]
    } else {
        seq![letter] + args[0] + spaced(args.drop_first())
    }
}

/// Builds the `d` attribute of a glyph's outline path, one command at a time.
pub struct SvgPen {
    d: String,
}

impl SvgPen {
    /// The path data written so far.
    pub closed spec fn path(&self) -> Seq<char> {
        self.d@
    }

    /// A pen that has written nothing.
    pub fn new() -> (p: Self)
        ensures
            p.path() == Seq::<char>::empty(),
    {
        SvgPen { d: String::new() }
    }

    /// Appends a command with its arguments.
    fn push_command(&mut self, letter: char, args: &[&str])
        ensures
            final(self).path() == old(self).path() + path_command(
                letter,
                args@.map_values(|a: &str| a@),
            ),
    {
        let ghost start = self.d@;
        let ghost views = args@.map_values(|a: &str| a@);
        push_char(&mut self.d, letter);
        if args.len() == 0 {
            assert(self.d@ =~= start + path_command(letter, views));
            return ;
        }
        self.d.append(args[0]);
        let mut i: usize = 1;
        assert(views.drop_first().take(0) =~= Seq::<Seq<char>>::empty());
        while i < args.len()
            invariant
                1 <= i <= args@.len(),
                views == args@.map_values(|a: &str| a@),
                self.d@ == start + seq![letter] + views[0] + spaced(
                    views.drop_first().take(i - 1),
                ),
            decreases args@.len() - i,
        {
            let ghost before = self.d@;
            push_char(&mut self.d, ' ');
            self.d.append(args[i]);
            let ghost t = views.drop_first().take(i as int);
            assert(t.drop_last() =~= views.drop_first().take(i - 1));
            assert(t.last() == views[i as int]);
            assert(self.d@ =~= before + seq![' '] + views[i as int]);
            i = i + 1;
        }
        assert(views.drop_first().take(args@.len() - 1) =~= views.drop_first());
        assert(self.d@ =~= start + path_command(letter, views));
    }

    /// Moves to `(x, y)`: `M<x> <y>`.
    pub fn move_to(&mut self, x: &str, y: &str)
        ensures
            final(self).path() == old(self).path() + path_command('M', seq![x@, y@]),
    {
        let args: [&str; 2] = [x, y];
        self.push_command('M', &args);
        assert(args@.map_values(|a: &str| a@) =~= seq![x@, y@]);
    }

    /// A line to `(x, y)`: `L<x> <y>`.
    pub fn line_to(&mut self, x: &str, y: &str)
        ensures
            final(self).path() == old(self).path() + path_command('L', seq![x@, y@]),
    {
        let args: [&str; 2] = [x, y];
        self.push_command('L', &args);
        assert(args@.map_values(|a: &str| a@) =~= seq![x@, y@]);
    }

    /// A quadratic curve through the control point `(cx0, cy0)` to `(x, y)`.
    pub fn quad_to(&mut self, cx0: &str, cy0: &str, x: &str, y: &str)
        ensures
            final(self).path() == old(self).path() + path_command(
                'Q',
                seq![cx0@, cy0@, x@, y@],
            ),
    {
        let args: [&str; 4] = [cx0, cy0, x, y];
        self.push_command('Q', &args);
        assert(args@.map_values(|a: &str| a@) =~= seq![cx0@, cy0@, x@, y@]);
    }

    /// A cubic curve through two control points to `(x, y)`.
    pub fn curve_to(&mut self, cx0: &str, cy0: &str, cx1: &str, cy1: &str, x: &str, y: &str)
        ensures
            final(self).path() == old(self).path() + path_command(
                'C',
                seq![cx0@, cy0@, cx1@, cy1@, x@, y@],
            ),
    {
        let args: [&str; 6] = [cx0, cy0, cx1, cy1, x, y];
        self.push_command('C', &args);
        assert(args@.map_values(|a: &str| a@) =~= seq![cx0@, cy0@, cx1@, cy1@, x@, y@]);
    }

    /// Closes the current contour: `Z`.
    pub fn close(&mut self)
        ensures
            final(self).path() == old(self).path().push('Z'),
    {
        push_char(&mut self.d, 'Z');
    }

    /// The path data, or `None` when nothing was drawn.
    pub fn finish(self) -> (r: Option<String>)
        ensures
            self.path().len() == 0 ==> r is None,
            self.path().len() > 0 ==> (r matches Some(d) && d@ == self.path()),
    {
        if self.d.as_str().is_empty() {
            None
        } else {
            Some(self.d)
        }
    }
}

/// The marker at the end of a message's line, for its arrowhead.
pub open spec fn marker_url(head: HeadStyle) -> Seq<char> {
    match head {
        HeadStyle::Open => "url(#arrow-open)"@,
        HeadStyle::Closed => "url(#arrow-closed)"@,
    }
}

/// The marker at the end of a message's line: the open or the closed
/// arrowhead.
pub fn message_marker(head: HeadStyle) -> (r: &'static str)
    ensures
        r@ == marker_url(head),
{
    match head {
        HeadStyle::Open => "url(#arrow-open)",
        HeadStyle::Closed => "url(#arrow-closed)",
    }
}

/// The SVG filter that draws a drop shadow: the shape's alpha blurred by
/// `std_deviation`, moved by `(dx, dy)` and flooded with `color`, under the
/// shape itself.
pub open spec fn shadow_filter(
    id: Seq<char>,
    std_deviation: Seq<char>,
    dx: Seq<char>,
    dy: Seq<char>,
    color: [u8; 4],
) -> Seq<char> {
    "<filter id=\""@ + id
        + "\" x=\"-20%\" y=\"-20%\" width=\"150%\" height=\"150%\" color-interpolation-filters=\"sRGB\">"@
        + "<feGaussianBlur in=\"SourceAlpha\" stdDeviation=\""@ + std_deviation + "\"/>"@
        + "<feOffset dx=\""@ + dx + "\" dy=\""@ + dy + "\" result=\"offsetblur\"/>"@
        + "<feFlood flood-color=\"rgb("@ + decimal(color[0] as nat) + ","@ + decimal(
        color[1] as nat,
    ) + ","@ + decimal(color[2] as nat) + ")\" flood-opacity=\""@ + opacity_text(color[3])
        + "\"/>"@ + "<feComposite in2=\"offsetblur\" operator=\"in\"/>"@
        + "<feMerge><feMergeNode/><feMergeNode in=\"SourceGraphic\"/></feMerge>"@
        + "</filter>"@
}

/// Appends the drop shadow filter `id` to `out`.
pub fn write_shadow_filter(
    out: &mut String,
    id: &str,
    std_deviation: &str,
    dx: &str,
    dy: &str,
    color: [u8; 4],
)
    ensures
        final(out)@ == old(out)@ + shadow_filter(id@, std_deviation@, dx@, dy@, color),
{
    out.append("<filter id=\"");
    out.append(id);
    out.append(
        "\" x=\"-20%\" y=\"-20%\" width=\"150%\" height=\"150%\" color-interpolation-filters=\"sRGB\">",
    );
    out.append("<feGaussianBlur in=\"SourceAlpha\" stdDeviation=\"");
    out.append(std_deviation);
    out.append("\"/>");
    out.append("<feOffset dx=\"");
    out.append(dx);
    out.append("\" dy=\"");
    out.append(dy);
    out.append("\" result=\"offsetblur\"/>");
    out.append("<feFlood flood-color=\"rgb(");
    push_decimal(out, color[0] as usize);
    out.append(",");
    push_decimal(out, color[1] as usize);
    out.append(",");
    push_decimal(out, color[2] as usize);
    out.append(")\" flood-opacity=\"");
    let a = format_opacity(color[3]);
    out.append(a.as_str());
    out.append("\"/>");
    out.append("<feComposite in2=\"offsetblur\" operator=\"in\"/>");
    out.append("<feMerge><feMergeNode/><feMergeNode in=\"SourceGraphic\"/></feMerge>");
    out.append("</filter>");
    assert(out@ =~= old(out)@ + shadow_filter(id@, std_deviation@, dx@, dy@, color));
}

} // verus!
