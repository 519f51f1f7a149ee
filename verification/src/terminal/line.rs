//! Lines of terminal output.

use vstd::prelude::*;

verus! {

/// How a line is marked up where colors are on.
#[derive(Debug, Clone, Copy, PartialEq, Eq, Structural)]
pub enum Style {
    Plain,
    Bold,
    Red,
    Yellow,
    Green,
    RedBold,
    GreenBold,
}

/// One printed line; its text may hold line breaks of its own.
#[derive(Debug)]
pub struct Line {
    pub text: String,
    pub style: Style,
}

/// A line as a mathematical value.
pub struct LineView {
    pub text: Seq<char>,
    pub style: Style,
}

impl View for Line {
    type V = LineView;

    open spec fn view(&self) -> LineView {
        LineView { text: self.text@, style: self.style }
    }
}

/// The lines of a list.
pub open spec fn shown(v: Seq<Line>) -> Seq<LineView> {
    Seq::new(v.len(), |i: int| v[i]@)
}

/// A line without markup.
pub open spec fn plain(text: Seq<char>) -> LineView {
    LineView { text, style: Style::Plain }
}

/// Appends a line.
pub fn emit(out: &mut Vec<Line>, text: String, style: Style)
    ensures
        shown(final(out)@) == shown(old(out)@).push(LineView { text: text@, style }),
{
    let ghost before = out@;
    out.push(Line { text, style });
    assert(shown(out@) =~= shown(before).push(LineView { text: text@, style }));
}

/// Appends the lines of `more`.
pub fn emit_all(out: &mut Vec<Line>, more: Vec<Line>)
    ensures
        shown(final(out)@) == shown(old(out)@) + shown(more@),
{
    let ghost before = out@;
    let ghost added = more@;
    let mut more = more;
    out.append(&mut more);
    assert(shown(out@) =~= shown(before) + shown(added));
}

/// No lines.
pub fn no_lines() -> (r: Vec<Line>)
    ensures
        shown(r@) == Seq::<LineView>::empty(),
{
    let r: Vec<Line> = Vec::new();
    assert(shown(r@) =~= Seq::<LineView>::empty());
    r
}

} // verus!
