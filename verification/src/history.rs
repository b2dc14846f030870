//! Rendering of history cells as plain text.
use vstd::prelude::*;
use vstd::string::*;

use crate::text::string_views;

verus! {

broadcast use vstd::string::group_string_axioms;

/// The lines joined with a newline between consecutive lines.
pub open spec fn join_lines(lines: Seq<Seq<char>>) -> Seq<char>
    decreases lines.len(),
{
    if lines.len() == 0 {
        Seq::empty()
    } else if lines.len() == 1 {
        lines[0]
    } else {
        join_lines(lines.drop_last()) + seq!['\n'] + lines.last()
    }
}

/// The text of a cell from its display lines: the lines joined by newlines.
pub fn render_cell(lines: &Vec<String>) -> (r: String)
    ensures
        r@ == join_lines(string_views(lines@)),
{
    let ghost views = string_views(lines@);
    let mut out = String::new();
    let mut i: usize = 0;
    assert(views.take(0) =~= Seq::<Seq<char>>::empty());
    while i < lines.len()
        invariant
            i <= lines@.len(),
            views == string_views(lines@),
            out@ == join_lines(views.take(i as int)),
        decreases lines.len() - i,
    {
        assert(views.take(i + 1).drop_last() =~= views.take(i as int));
        if i > 0 {
            out.append("\n");
            proof {
                reveal_strlit("\n");
            }
        } else {
            assert(views.take(1) =~= seq![views[0]]);
        }
        out.append(lines[i].as_str());
        i = i + 1;
    }
    assert(views.take(lines.len() as int) =~= views);
    out
}

} // verus!
