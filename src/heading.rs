//! The fixed preamble of a rendered index holds no `<H1>`.

use vstd::prelude::*;
use crate::render::{lemma_lines_text_one, preamble};
use crate::text::lines_text;

verus! {

spec fn opens_h1_at(s: Seq<char>, i: int) -> bool {
    &&& s[i] == '<'
    &&& s[i + 1] == 'H'
    &&& s[i + 2] == '1'
    &&& s[i + 3] == '>'
}

spec fn no_h1_from(s: Seq<char>, i: int) -> bool
    decreases s.len() - i,
{
    if i < 0 || i + 4 > s.len() {
        true
    } else {
        !opens_h1_at(s, i) && no_h1_from(s, i + 1)
    }
}

proof fn lemma_no_h1_from(s: Seq<char>, i: int)
    requires
        0 <= i,
        no_h1_from(s, i),
    ensures
        forall|k: int| i <= k && k + 4 <= s.len() ==> !opens_h1_at(s, k),
    decreases s.len() - i,
{
    if i + 4 <= s.len() {
        lemma_no_h1_from(s, i + 1);
    }
}

spec fn preamble_text() -> Seq<char> {
    "<!DOCTYPE NETSCAPE-Bookmark-file-1>"@ + seq!['\n']
        + "<META HTTP-EQUIV=\"Content-Type\" CONTENT=\"text/html; charset=UTF-8\">"@ + seq!['\n']
        + "<!-- This is an automatically generated file. It will be read and modified by automated tools. Edit only if you understand the risks -->"@
        + seq!['\n'] + "<TITLE>Bookmarks</TITLE>"@ + seq!['\n']
}

proof fn lemma_preamble_eq()
    ensures
        lines_text(preamble()) == preamble_text(),
{
    let pre = preamble();
    let l0 = pre[0];
    let l1 = pre[1];
    let l2 = pre[2];
    let l3 = pre[3];
    assert(pre.drop_last().drop_last().drop_last() =~= seq![l0]);
    assert(pre.drop_last().drop_last() =~= seq![l0, l1]);
    assert(pre.drop_last() =~= seq![l0, l1, l2]);
    lemma_lines_text_one(l0);
    assert(lines_text(seq![l0, l1]) =~= l0 + seq!['\n'] + l1 + seq!['\n']);
    assert(lines_text(seq![l0, l1, l2]) =~= l0 + seq!['\n'] + l1 + seq!['\n'] + l2 + seq!['\n']);
    assert(lines_text(pre) =~= preamble_text());
}

proof fn lemma_preamble_chars()
    ensures
        preamble_text().len() == 266,
        preamble_text()[265] == '\n',
        forall|k: int| 0 <= k && k + 4 <= 266 ==> !opens_h1_at(preamble_text(), k),
{
    reveal_strlit("<!DOCTYPE NETSCAPE-Bookmark-file-1>");
    reveal_strlit("<META HTTP-EQUIV=\"Content-Type\" CONTENT=\"text/html; charset=UTF-8\">");
    reveal_strlit("<!-- This is an automatically generated file. It will be read and modified by automated tools. Edit only if you understand the risks -->");
    reveal_strlit("<TITLE>Bookmarks</TITLE>");
    let p = preamble_text();
    assert(no_h1_from(p, 260)) by {
        reveal_with_fuel(no_h1_from, 11);
    }
    assert(no_h1_from(p, 250)) by {
        reveal_with_fuel(no_h1_from, 11);
    }
    assert(no_h1_from(p, 240)) by {
        reveal_with_fuel(no_h1_from, 11);
    }
    assert(no_h1_from(p, 230)) by {
        reveal_with_fuel(no_h1_from, 11);
    }
    assert(no_h1_from(p, 220)) by {
        reveal_with_fuel(no_h1_from, 11);
    }
    assert(no_h1_from(p, 210)) by {
        reveal_with_fuel(no_h1_from, 11);
    }
    assert(no_h1_from(p, 200)) by {
        reveal_with_fuel(no_h1_from, 11);
    }
    assert(no_h1_from(p, 190)) by {
        reveal_with_fuel(no_h1_from, 11);
    }
    assert(no_h1_from(p, 180)) by {
        reveal_with_fuel(no_h1_from, 11);
    }
    assert(no_h1_from(p, 170)) by {
        reveal_with_fuel(no_h1_from, 11);
    }
    assert(no_h1_from(p, 160)) by {
        reveal_with_fuel(no_h1_from, 11);
    }
    assert(no_h1_from(p, 150)) by {
        reveal_with_fuel(no_h1_from, 11);
    }
    assert(no_h1_from(p, 140)) by {
        reveal_with_fuel(no_h1_from, 11);
    }
    assert(no_h1_from(p, 130)) by {
        reveal_with_fuel(no_h1_from, 11);
    }
    assert(no_h1_from(p, 120)) by {
        reveal_with_fuel(no_h1_from, 11);
    }
    assert(no_h1_from(p, 110)) by {
        reveal_with_fuel(no_h1_from, 11);
    }
    assert(no_h1_from(p, 100)) by {
        reveal_with_fuel(no_h1_from, 11);
    }
    assert(no_h1_from(p, 90)) by {
        reveal_with_fuel(no_h1_from, 11);
    }
    assert(no_h1_from(p, 80)) by {
        reveal_with_fuel(no_h1_from, 11);
    }
    assert(no_h1_from(p, 70)) by {
        reveal_with_fuel(no_h1_from, 11);
    }
    assert(no_h1_from(p, 60)) by {
        reveal_with_fuel(no_h1_from, 11);
    }
    assert(no_h1_from(p, 50)) by {
        reveal_with_fuel(no_h1_from, 11);
    }
    assert(no_h1_from(p, 40)) by {
        reveal_with_fuel(no_h1_from, 11);
    }
    assert(no_h1_from(p, 30)) by {
        reveal_with_fuel(no_h1_from, 11);
    }
    assert(no_h1_from(p, 20)) by {
        reveal_with_fuel(no_h1_from, 11);
    }
    assert(no_h1_from(p, 10)) by {
        reveal_with_fuel(no_h1_from, 11);
    }
    assert(no_h1_from(p, 0)) by {
        reveal_with_fuel(no_h1_from, 11);
    }
    lemma_no_h1_from(p, 0);
}

/// The preamble's text: 266 characters, ending in a newline, with no `<H1>`.
pub proof fn lemma_preamble_text()
    ensures
        lines_text(preamble()).len() == 266,
        lines_text(preamble())[265] == '\n',
        forall|k: int|
            0 <= k && k + 4 <= 266 ==> !(#[trigger] lines_text(preamble())[k] == '<'
                && lines_text(preamble())[k + 1] == 'H' && lines_text(preamble())[k + 2] == '1'
                && lines_text(preamble())[k + 3] == '>'),
{
    lemma_preamble_eq();
    lemma_preamble_chars();
    assert forall|k: int| 0 <= k && k + 4 <= 266 implies !(#[trigger] lines_text(preamble())[k]
        == '<' && lines_text(preamble())[k + 1] == 'H' && lines_text(preamble())[k + 2] == '1'
        && lines_text(preamble())[k + 3] == '>') by {
        assert(!opens_h1_at(preamble_text(), k));
    }
}

} // verus!
