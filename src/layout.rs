//! The rendered document's layout: its lines hold no newline, and its outer
//! list is where the parser looks for it.

use vstd::prelude::*;
use crate::heading::lemma_preamble_text;
use crate::lexer::{find_at, has_at, skip_ws};
use crate::model::{ItemView, LinkView};
use crate::parser::{heading_close, list_block, list_open_after, parse_lines, parsed, step};
use crate::render::{
    entries_lines, heading_line, item_lines, items_lines, lemma_lines_text_append,
    lemma_lines_text_one, link_line, link_lines, preamble, rendered,
};
use crate::roundtrip::{
    is_indent, item_renderable, items_renderable, lemma_decimal, lemma_items_machine,
    lemma_unfold, link_renderable, no_caption_first, no_char,
};
use crate::text::{decimal, lines_text, split_lines, trim, trim_end};

verus! {

spec fn no_nl_from(s: Seq<char>, i: int) -> bool
    decreases s.len() - i,
{
    if i < 0 || i >= s.len() {
        true
    } else {
        s[i] != '\n' && no_nl_from(s, i + 1)
    }
}

proof fn lemma_no_nl_from(s: Seq<char>, i: int)
    requires
        0 <= i,
        no_nl_from(s, i),
    ensures
        forall|k: int| i <= k < s.len() ==> s[k] != '\n',
    decreases s.len() - i,
{
    if i < s.len() {
        lemma_no_nl_from(s, i + 1);
    }
}

proof fn lemma_no_nl_concat(a: Seq<char>, b: Seq<char>)
    requires
        no_char(a, '\n'),
        no_char(b, '\n'),
    ensures
        no_char(a + b, '\n'),
{
    assert forall|k: int| 0 <= k < (a + b).len() implies (a + b)[k] != '\n' by {
        if k < a.len() {
            assert((a + b)[k] == a[k]);
        } else {
            assert((a + b)[k] == b[k - a.len()]);
        }
    }
}

proof fn lemma_literals_no_nl()
    ensures
        no_char("    "@, '\n'),
        no_char("        "@, '\n'),
        no_char("<DT><A HREF=\""@, '\n'),
        no_char("\" ADD_DATE=\""@, '\n'),
        no_char("\" LAST_MODIFIED=\""@, '\n'),
        no_char("\">"@, '\n'),
        no_char("</A>"@, '\n'),
        no_char("<DD>"@, '\n'),
        no_char("    <DT><H3 LAST_MODIFIED=\""@, '\n'),
        no_char("</H3>"@, '\n'),
        no_char("    <DL><p>"@, '\n'),
        no_char("    </DL><p>"@, '\n'),
{
    reveal_strlit("    ");
    reveal_strlit("        ");
    reveal_strlit("<DT><A HREF=\"");
    reveal_strlit("\" ADD_DATE=\"");
    reveal_strlit("\" LAST_MODIFIED=\"");
    reveal_strlit("\">");
    reveal_strlit("</A>");
    reveal_strlit("<DD>");
    reveal_strlit("    <DT><H3 LAST_MODIFIED=\"");
    reveal_strlit("</H3>");
    reveal_strlit("    <DL><p>");
    reveal_strlit("    </DL><p>");
    assert(no_nl_from("    "@, 0)) by { reveal_with_fuel(no_nl_from, 6); }
    assert(no_nl_from("        "@, 0)) by { reveal_with_fuel(no_nl_from, 10); }
    assert(no_nl_from("<DT><A HREF=\""@, 0)) by { reveal_with_fuel(no_nl_from, 15); }
    assert(no_nl_from("\" ADD_DATE=\""@, 0)) by { reveal_with_fuel(no_nl_from, 14); }
    assert(no_nl_from("\" LAST_MODIFIED=\""@, 0)) by { reveal_with_fuel(no_nl_from, 19); }
    assert(no_nl_from("\">"@, 0)) by { reveal_with_fuel(no_nl_from, 4); }
    assert(no_nl_from("</A>"@, 0)) by { reveal_with_fuel(no_nl_from, 6); }
    assert(no_nl_from("<DD>"@, 0)) by { reveal_with_fuel(no_nl_from, 6); }
    assert(no_nl_from("    <DT><H3 LAST_MODIFIED=\""@, 14)) by { reveal_with_fuel(no_nl_from, 15); }
    assert(no_nl_from("    <DT><H3 LAST_MODIFIED=\""@, 0)) by { reveal_with_fuel(no_nl_from, 15); }
    assert(no_nl_from("</H3>"@, 0)) by { reveal_with_fuel(no_nl_from, 7); }
    assert(no_nl_from("    <DL><p>"@, 0)) by { reveal_with_fuel(no_nl_from, 13); }
    assert(no_nl_from("    </DL><p>"@, 0)) by { reveal_with_fuel(no_nl_from, 14); }
    lemma_no_nl_from("    "@, 0);
    lemma_no_nl_from("        "@, 0);
    lemma_no_nl_from("<DT><A HREF=\""@, 0);
    lemma_no_nl_from("\" ADD_DATE=\""@, 0);
    lemma_no_nl_from("\" LAST_MODIFIED=\""@, 0);
    lemma_no_nl_from("\">"@, 0);
    lemma_no_nl_from("</A>"@, 0);
    lemma_no_nl_from("<DD>"@, 0);
    lemma_no_nl_from("    <DT><H3 LAST_MODIFIED=\""@, 0);
    lemma_no_nl_from("</H3>"@, 0);
    lemma_no_nl_from("    <DL><p>"@, 0);
    lemma_no_nl_from("    </DL><p>"@, 0);
}

} // verus!

verus! {

pub open spec fn lines_ok(ls: Seq<Seq<char>>) -> bool {
    forall|k: int| 0 <= k < ls.len() ==> no_char(#[trigger] ls[k], '\n')
}

proof fn lemma_lines_ok_concat(a: Seq<Seq<char>>, b: Seq<Seq<char>>)
    requires
        lines_ok(a),
        lines_ok(b),
    ensures
        lines_ok(a + b),
{
    assert forall|k: int| 0 <= k < (a + b).len() implies no_char(#[trigger] (a + b)[k], '\n') by {
        if k < a.len() {
            assert((a + b)[k] == a[k]);
        } else {
            assert((a + b)[k] == b[k - a.len()]);
        }
    }
}

proof fn lemma_decimal_no_nl(n: nat)
    ensures
        no_char(decimal(n), '\n'),
{
    lemma_decimal(n);
}

proof fn lemma_link_lines_ok(indent: Seq<char>, l: LinkView)
    requires
        is_indent(indent),
        link_renderable(l),
    ensures
        lines_ok(link_lines(indent, l)),
{
    lemma_literals_no_nl();
    lemma_decimal_no_nl(l.add_date as nat);
    lemma_decimal_no_nl(l.last_modified as nat);
    let a0 = indent + "<DT><A HREF=\""@;
    lemma_no_nl_concat(indent, "<DT><A HREF=\""@);
    lemma_no_nl_concat(a0, l.href);
    let a1 = a0 + l.href;
    lemma_no_nl_concat(a1, "\" ADD_DATE=\""@);
    let a2 = a1 + "\" ADD_DATE=\""@;
    lemma_no_nl_concat(a2, decimal(l.add_date as nat));
    let a3 = a2 + decimal(l.add_date as nat);
    lemma_no_nl_concat(a3, "\" LAST_MODIFIED=\""@);
    let a4 = a3 + "\" LAST_MODIFIED=\""@;
    lemma_no_nl_concat(a4, decimal(l.last_modified as nat));
    let a5 = a4 + decimal(l.last_modified as nat);
    lemma_no_nl_concat(a5, "\">"@);
    let a6 = a5 + "\">"@;
    lemma_no_nl_concat(a6, l.name);
    let a7 = a6 + l.name;
    lemma_no_nl_concat(a7, "</A>"@);
    assert(link_line(indent, l) == a7 + "</A>"@);
    match l.description {
        Some(d) => {
            lemma_no_nl_concat(indent, "<DD>"@);
            lemma_no_nl_concat(indent + "<DD>"@, d);
        },
        None => {},
    }
}

proof fn lemma_entries_lines_ok(es: Seq<LinkView>)
    requires
        forall|k: int| 0 <= k < es.len() ==> link_renderable(#[trigger] es[k]),
    ensures
        lines_ok(entries_lines(es)),
    decreases es.len(),
{
    reveal_strlit("        ");
    if es.len() > 0 {
        let es0 = es.drop_last();
        assert forall|k: int| 0 <= k < es0.len() implies link_renderable(#[trigger] es0[k]) by {
            assert(es0[k] == es[k]);
        }
        lemma_entries_lines_ok(es0);
        lemma_link_lines_ok("        "@, es.last());
        lemma_lines_ok_concat(entries_lines(es0), link_lines("        "@, es.last()));
    }
}

proof fn lemma_item_lines_ok(item: ItemView)
    requires
        item_renderable(item),
    ensures
        lines_ok(item_lines(item)),
{
    reveal_strlit("    ");
    match item {
        ItemView::Link(l) => {
            lemma_link_lines_ok("    "@, l);
        },
        ItemView::Folder(f) => {
            lemma_literals_no_nl();
            lemma_decimal_no_nl(f.last_modified as nat);
            let x = "    <DT><H3 LAST_MODIFIED=\""@;
            lemma_no_nl_concat(x, decimal(f.last_modified as nat));
            lemma_no_nl_concat(x + decimal(f.last_modified as nat), "\">"@);
            lemma_no_nl_concat(x + decimal(f.last_modified as nat) + "\">"@, f.name);
            lemma_no_nl_concat(
                x + decimal(f.last_modified as nat) + "\">"@ + f.name,
                "</H3>"@,
            );
            let head = seq![crate::render::folder_line(f.name, f.last_modified), "    <DL><p>"@];
            assert(lines_ok(head));
            lemma_entries_lines_ok(f.entries);
            lemma_lines_ok_concat(head, entries_lines(f.entries));
            assert(lines_ok(seq!["    </DL><p>"@]));
            lemma_lines_ok_concat(head + entries_lines(f.entries), seq!["    </DL><p>"@]);
        },
    }
}

proof fn lemma_items_lines_ok(items: Seq<ItemView>)
    requires
        items_renderable(items),
    ensures
        lines_ok(items_lines(items)),
    decreases items.len(),
{
    if items.len() > 0 {
        let its0 = items.drop_last();
        assert forall|k: int| 0 <= k < its0.len() implies item_renderable(#[trigger] its0[k]) by {
            assert(its0[k] == items[k]);
        }
        lemma_items_lines_ok(its0);
        assert(item_renderable(items[items.len() - 1]));
        lemma_item_lines_ok(items.last());
        lemma_lines_ok_concat(items_lines(its0), item_lines(items.last()));
    }
}

proof fn lemma_split_lines_len(s: Seq<char>)
    ensures
        split_lines(s).len() >= 1,
    decreases s.len(),
{
    if s.len() > 0 {
        lemma_split_lines_len(s.drop_last());
    }
}

proof fn lemma_split_extend(x: Seq<char>, y: Seq<char>)
    requires
        no_char(y, '\n'),
    ensures
        split_lines(x + y) == split_lines(x).update(
            split_lines(x).len() - 1,
            split_lines(x).last() + y,
        ),
    decreases y.len(),
{
    lemma_split_lines_len(x);
    let sx = split_lines(x);
    if y.len() == 0 {
        assert(x + y =~= x);
        assert(sx.last() + y =~= sx.last());
        assert(sx.update(sx.len() - 1, sx.last()) =~= sx);
    } else {
        let y0 = y.drop_last();
        lemma_split_extend(x, y0);
        assert((x + y).drop_last() =~= x + y0);
        assert((x + y).last() == y.last());
        let prev = split_lines(x + y0);
        assert(prev.last() == sx.last() + y0);
        assert(prev.last().push(y.last()) =~= sx.last() + y);
        assert(prev.update(prev.len() - 1, prev.last().push(y.last())) =~= sx.update(
            sx.len() - 1,
            sx.last() + y,
        ));
    }
}

/// Cutting written-out lines at newlines gives the lines back, then the
/// empty piece after the last newline.
pub proof fn lemma_split_lines_text(ls: Seq<Seq<char>>)
    requires
        lines_ok(ls),
    ensures
        split_lines(lines_text(ls)) == ls.push(Seq::<char>::empty()),
    decreases ls.len(),
{
    if ls.len() == 0 {
        assert(split_lines(Seq::<char>::empty()) =~= seq![Seq::<char>::empty()]);
        assert(ls.push(Seq::<char>::empty()) =~= seq![Seq::<char>::empty()]);
    } else {
        let l0 = ls.drop_last();
        assert forall|k: int| 0 <= k < l0.len() implies no_char(#[trigger] l0[k], '\n') by {
            assert(l0[k] == ls[k]);
        }
        lemma_split_lines_text(l0);
        let x = lines_text(l0);
        let y = ls.last();
        assert(no_char(ls[ls.len() - 1], '\n'));
        lemma_split_extend(x, y);
        let s = lines_text(ls);
        assert(s == x + y + seq!['\n']);
        assert(s.drop_last() =~= x + y);
        assert(s.last() == '\n');
        let sx = split_lines(x);
        assert(sx.last() + y =~= y);
        assert(sx.update(sx.len() - 1, y) =~= ls);
    }
}

/// The lines of a rendered block, between the list markers, read back as its items.
proof fn lemma_block_lines(items: Seq<ItemView>)
    requires
        items_renderable(items),
    ensures
        parse_lines(
            (seq![Seq::<char>::empty()] + items_lines(items)).push(Seq::<char>::empty()),
            None,
        ) == items,
{
    reveal_strlit("<DT><A ");
    reveal_strlit("<DT><H3");
    reveal_strlit("<DD>");
    reveal(crate::parser::parse_link);
    reveal(crate::parser::parse_folder);
    reveal(crate::parser::caption_of);
    let e = Seq::<char>::empty();
    let ls = (seq![e] + items_lines(items)).push(e);
    let rest = items_lines(items) + seq![e];
    assert(trim(e) == e);
    assert(ls[0] == e);
    assert(!has_at(e, 0, "<DT><A "@));
    assert(!has_at(e, 0, "<DT><H3"@));
    assert(step(ls, None) == (Seq::<ItemView>::empty(), 1int, None::<crate::model::FolderView>));
    lemma_unfold(ls, None);
    assert(ls.skip(1) =~= rest);
    assert(no_caption_first(seq![e])) by {
        assert(!has_at(trim(e), 0, "<DD>"@));
    }
    lemma_items_machine(items, seq![e]);
    let one = seq![e];
    assert(step(one, None) == (Seq::<ItemView>::empty(), 1int, None::<crate::model::FolderView>));
    lemma_unfold(one, None);
    assert(one.skip(1) =~= Seq::<Seq<char>>::empty());
    assert(parse_lines(one, None) =~= Seq::<ItemView>::empty());
    assert(Seq::<ItemView>::empty() + (items + Seq::<ItemView>::empty()) =~= items);
}

} // verus!

verus! {

proof fn lemma_find_at_skip(s: Seq<char>, pat: Seq<char>, from: int, to: int)
    requires
        0 <= from <= to,
        to + pat.len() <= s.len(),
        forall|i: int| from <= i < to ==> !has_at(s, i, pat),
    ensures
        find_at(s, pat, from) == find_at(s, pat, to),
    decreases to - from,
{
    if from < to {
        lemma_find_at_skip(s, pat, from + 1, to);
    }
}

proof fn lemma_heading_close_skip(s: Seq<char>, from: int, to: int, k: int)
    requires
        0 <= from <= to,
        to + 5 <= s.len(),
        forall|j: int| from <= j < to ==> !has_at(s, j, "</H1>"@),
    ensures
        heading_close(s, from, k) == heading_close(s, to, k),
    decreases to - from,
{
    if from < to {
        lemma_heading_close_skip(s, from + 1, to, k);
    }
}

proof fn lemma_lines_text_pair(a: Seq<char>, b: Seq<char>)
    ensures
        lines_text(seq![a, b]) == a + seq!['\n'] + b + seq!['\n'],
{
    assert(seq![a, b].drop_last() =~= seq![a]);
    lemma_lines_text_one(a);
    assert(lines_text(seq![a, b]) =~= a + seq!['\n'] + b + seq!['\n']);
}

#[verifier::rlimit(60)]
proof fn lemma_document(title: Seq<char>, items: Seq<ItemView>)
    requires
        no_char(title, '<'),
        items_renderable(items),
    ensures
        parsed(rendered(title, items)) == items,
{
    reveal_strlit("<H1>");
    reveal_strlit("</H1>");
    reveal_strlit("<DL><p>");
    reveal_strlit("</DL><p>");
    let s = rendered(title, items);
    let p = lines_text(preamble());
    lemma_preamble_text();
    let h = heading_line(title);
    let o = "<DL><p>"@;
    let c = "</DL><p>"@;
    let il = items_lines(items);
    let b = lines_text(il);
    lemma_lines_text_append(preamble() + seq![h, o] + il, seq![c]);
    lemma_lines_text_append(preamble() + seq![h, o], il);
    lemma_lines_text_append(preamble(), seq![h, o]);
    lemma_lines_text_pair(h, o);
    lemma_lines_text_one(c);
    assert(s =~= p + h + seq!['\n'] + o + seq!['\n'] + b + c + seq!['\n']);
    let pl: int = 266;
    let j0 = pl + 4 + title.len();
    let b0 = j0 + 13;
    let c0 = b0 + 1 + b.len();
    assert(s.len() == c0 + 9);
    // The first `<H1>` is the heading's.
    assert forall|i: int| 0 <= i < pl implies !has_at(s, i, "<H1>"@) by {
        if has_at(s, i, "<H1>"@) {
            let w = s.subrange(i, i + 4);
            assert(w[0] == s[i] && w[1] == s[i + 1] && w[2] == s[i + 2] && w[3] == s[i + 3]);
            if i + 4 <= pl {
                assert(s[i] == p[i] && s[i + 1] == p[i + 1] && s[i + 2] == p[i + 2] && s[i + 3]
                    == p[i + 3]);
            } else {
                assert(s[pl - 1] == '\n');
            }
        }
    }
    assert(s.subrange(pl, pl + 4) =~= "<H1>"@);
    lemma_find_at_skip(s, "<H1>"@, 0, pl);
    assert(find_at(s, "<H1>"@, 0) == Some(pl));
    // The closing list marker ends the text but for its newline.
    assert(s.last() == '\n');
    assert(s.drop_last().last() == '>');
    assert(trim_end(s.drop_last()) == s.drop_last());
    assert(trim_end(s) == s.drop_last());
    assert(s.subrange(c0, c0 + 8) =~= c);
    // The heading closes right after the title, and the list opens on the next line.
    assert forall|j: int| pl + 4 <= j < j0 implies !has_at(s, j, "</H1>"@) by {
        if has_at(s, j, "</H1>"@) {
            assert(s.subrange(j, j + 5)[0] == s[j]);
            assert(s[j] == title[j - pl - 4]);
        }
    }
    lemma_heading_close_skip(s, pl + 4, j0, c0);
    assert(s.subrange(j0, j0 + 5) =~= "</H1>"@);
    assert(s[j0 + 5] == '\n');
    assert(s[j0 + 6] == '<');
    assert(skip_ws(s, j0 + 6) == j0 + 6);
    assert(skip_ws(s, j0 + 5) == j0 + 6);
    assert(s.subrange(j0 + 6, j0 + 13) =~= o);
    assert(list_open_after(s, j0 + 5, c0) == Some(b0));
    assert(heading_close(s, j0, c0) == Some(b0));
    assert(list_block(s) == Some((b0, c0)));
    // The block is the items' lines after an empty one.
    let e = Seq::<char>::empty();
    lemma_lines_text_append(seq![e], il);
    lemma_lines_text_one(e);
    assert(s.subrange(b0, c0) =~= lines_text(seq![e] + il));
    lemma_items_lines_ok(items);
    assert(lines_ok(seq![e]));
    lemma_lines_ok_concat(seq![e], il);
    lemma_split_lines_text(seq![e] + il);
    lemma_block_lines(items);
}

/// Reading a rendered index gives back the items it was rendered from, in
/// order and with every field, for items the format can carry and a heading
/// without `<`.
pub proof fn parse_inverts_render(title: Seq<char>, items: Seq<ItemView>)
    requires
        no_char(title, '<'),
        items_renderable(items),
    ensures
        parsed(rendered(title, items)) == items,
{
    lemma_document(title, items);
}

} // verus!
