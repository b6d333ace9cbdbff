//! A line that is no part of the format is skipped: inserting it among the
//! lines of a list changes nothing that is read.

use vstd::prelude::*;
use crate::lexer::has_at;
use crate::model::{FolderView, ItemView};
use crate::parser::{caption_of, lemma_step_uses, parse_folder, parse_lines, parse_link, step};
use crate::roundtrip::lemma_unfold;
use crate::text::trim;

verus! {

/// A line of neither shape: no link, no folder heading, no caption, no list
/// opening or closing.
pub open spec fn malformed_line(l: Seq<char>) -> bool {
    &&& parse_link(trim(l)) is None
    &&& parse_folder(trim(l)) is None
    &&& caption_of(l) is None
    &&& !has_at(trim(l), 0, "</DL>"@)
    &&& trim(l) != "<DL><p>"@
}

/// The lines after the insertion start with neither a caption nor a list
/// opening (a link, a folder heading or a list close, for instance).
pub open spec fn next_line_ok(b: Seq<Seq<char>>) -> bool {
    b.len() == 0 || (caption_of(b[0]) is None && trim(b[0]) != "<DL><p>"@)
}

/// One move of the line machine depends on the first two lines alone.
proof fn lemma_step_local(x: Seq<Seq<char>>, y: Seq<Seq<char>>, st: Option<FolderView>)
    requires
        x.len() >= 2,
        y.len() >= 2,
        x[0] == y[0],
        x[1] == y[1],
    ensures
        step(x, st) == step(y, st),
{
    assert(x.drop_first()[0] == y.drop_first()[0]);
}

/// A malformed line among the lines of a list is skipped: with it or without
/// it, the lines read as the same items, from any state.
pub proof fn malformed_line_is_skipped(
    a: Seq<Seq<char>>,
    l: Seq<char>,
    b: Seq<Seq<char>>,
    st: Option<FolderView>,
)
    requires
        malformed_line(l),
        next_line_ok(b),
    ensures
        parse_lines(a + seq![l] + b, st) == parse_lines(a + b, st),
    decreases a.len(),
{
    let x = a + seq![l] + b;
    let y = a + b;
    lemma_unfold(x, st);
    if a.len() == 0 {
        assert(x[0] == l);
        assert(step(x, st) == (Seq::<ItemView>::empty(), 1int, st));
        assert(x.skip(1) =~= b);
        assert(y =~= b);
    } else if a.len() >= 2 {
        assert(x[0] == a[0] && x[1] == a[1] && y[0] == a[0] && y[1] == a[1]);
        lemma_step_local(x, y, st);
        lemma_unfold(y, st);
        let s = step(x, st);
        lemma_step_uses(x, st);
        let c = s.1;
        assert(c <= a.len());
        let a2 = a.skip(c);
        assert(x.skip(c) =~= a2 + seq![l] + b);
        assert(y.skip(c) =~= a2 + b);
        malformed_line_is_skipped(a2, l, b, s.2);
    } else {
        let rx = x.drop_first();
        let ry = y.drop_first();
        assert(x[0] == a[0] && y[0] == a[0]);
        assert(rx =~= seq![l] + b);
        assert(ry =~= b);
        assert(rx[0] == l);
        assert(ry.len() > 0 ==> ry[0] == b[0]);
        assert(step(x, st).0 == step(y, st).0);
        assert(step(x, st).1 == 1 && step(y, st).1 == 1);
        assert(step(x, st).2 == step(y, st).2);
        lemma_unfold(y, st);
        let s2 = step(x, st).2;
        assert(x.skip(1) =~= Seq::<Seq<char>>::empty() + seq![l] + b);
        assert(y.skip(1) =~= Seq::<Seq<char>>::empty() + b);
        malformed_line_is_skipped(Seq::<Seq<char>>::empty(), l, b, s2);
    }
}

} // verus!
