//! The parser inverts the renderer: reading a rendered index gives back the
//! items it was rendered from.

use vstd::prelude::*;
use crate::lexer::{attr_value, digits_end, find_char, has_at, skip_ws};
use crate::parser::{
    caption_of, href_ok, lemma_step_uses, next_caption, parse_folder, parse_lines, parse_link, step,
};
use crate::render::{entries_lines, folder_line, item_lines, items_lines, link_line, link_lines};
use crate::text::{decimal, digit_char, digits_value, is_digit, is_ws, trim, trim_end, trim_start};
use crate::model::{FolderView, ItemView, LinkView};

verus! {

/// `c` does not occur in `s`.
pub open spec fn no_char(s: Seq<char>, c: char) -> bool {
    forall|k: int| 0 <= k < s.len() ==> s[k] != c
}

/// A link the format can carry: a non-empty `href` without `"`, newline or
/// bare `&`; a non-empty name without `<` or newline; a caption without
/// newline or surrounding whitespace.
pub open spec fn link_renderable(l: LinkView) -> bool {
    &&& l.href.len() > 0
    &&& no_char(l.href, '"')
    &&& no_char(l.href, '\n')
    &&& href_ok(l.href)
    &&& l.name.len() > 0
    &&& no_char(l.name, '<')
    &&& no_char(l.name, '\n')
    &&& match l.description {
        Some(d) => no_char(d, '\n') && trim(d) == d,
        None => true,
    }
}

proof fn lemma_digit_char(d: nat)
    requires
        d < 10,
    ensures
        digit_char(d) as u32 - 48 == d,
        is_digit(digit_char(d)),
{
}

pub proof fn lemma_decimal(n: nat)
    ensures
        decimal(n).len() >= 1,
        forall|k: int| 0 <= k < decimal(n).len() ==> is_digit(#[trigger] decimal(n)[k]),
        digits_value(decimal(n)) == n,
    decreases n,
{
    if n >= 10 {
        lemma_decimal(n / 10);
        let p = decimal(n / 10);
        let d = decimal(n);
        assert(d == p.push(digit_char(n % 10)));
        assert(d.drop_last() =~= p);
        lemma_digit_char(n % 10);
        assert(d.last() == digit_char(n % 10));
        assert((n / 10) * 10 + n % 10 == n) by (nonlinear_arith);
        assert(digits_value(d) == digits_value(p) * 10 + (d.last() as u32 - 48) as nat);
        assert(digits_value(d) == (n / 10) * 10 + n % 10);
        assert forall|k: int| 0 <= k < d.len() implies is_digit(#[trigger] d[k]) by {
            if k < p.len() {
                assert(d[k] == p[k]);
            }
        }
    } else {
        assert(decimal(n).drop_last() =~= Seq::<char>::empty());
        lemma_digit_char(n);
        let d = decimal(n);
        assert(d.last() == digit_char(n));
        assert(digits_value(d.drop_last()) == 0);
        assert(digits_value(d) == digits_value(d.drop_last()) * 10 + (d.last() as u32 - 48) as nat);
    }
}

proof fn lemma_digits_run(t: Seq<char>, pos: int, end: int)
    requires
        0 <= pos <= end < t.len(),
        forall|k: int| pos <= k < end ==> is_digit(#[trigger] t[k]),
        !is_digit(t[end]),
    ensures
        digits_end(t, pos) == end,
    decreases end - pos,
{
    if pos < end {
        lemma_digits_run(t, pos + 1, end);
    }
}

pub proof fn lemma_find_char_run(t: Seq<char>, pos: int, end: int, c: char)
    requires
        0 <= pos <= end < t.len(),
        forall|k: int| pos <= k < end ==> #[trigger] t[k] != c,
        t[end] == c,
    ensures
        find_char(t, pos, c) == end,
    decreases end - pos,
{
    if pos < end {
        lemma_find_char_run(t, pos + 1, end, c);
    }
}

/// An attribute ` KEY="n"` written by the renderer reads back as n.
proof fn lemma_attr_read(t: Seq<char>, pos: int, key: Seq<char>, n: u64)
    requires
        0 <= pos,
        key.len() > 0,
        !is_ws(key[0]),
        t[pos] == ' ',
        has_at(t, pos + 1, key),
        has_at(t, pos + 1 + key.len(), decimal(n as nat)),
        pos + 1 + key.len() + decimal(n as nat).len() < t.len(),
        t[pos + 1 + key.len() + decimal(n as nat).len()] == '"',
    ensures
        attr_value(t, pos, key) == (n, pos + 1 + key.len() + decimal(n as nat).len() + 1),
{
    let dec = decimal(n as nat);
    let q = pos + 1 + key.len();
    let e = q + dec.len();
    lemma_decimal(n as nat);
    assert(t.subrange(pos + 1, pos + 1 + key.len())[0] == t[pos + 1]);
    assert(skip_ws(t, pos + 1) == pos + 1);
    assert(skip_ws(t, pos) == pos + 1);
    assert forall|k: int| q <= k < e implies is_digit(#[trigger] t[k]) by {
        assert(t.subrange(q, e)[k - q] == t[k]);
    }
    lemma_digits_run(t, q, e);
    assert(t.subrange(q, e) == dec);
}

} // verus!

verus! {

proof fn lemma_skip_one_ws(t: Seq<char>, pos: int)
    requires
        0 <= pos,
        pos + 1 < t.len(),
        is_ws(t[pos]),
        !is_ws(t[pos + 1]),
    ensures
        skip_ws(t, pos) == pos + 1,
{
    assert(skip_ws(t, pos + 1) == pos + 1);
}

/// A link line as the renderer writes it, before indentation.
pub open spec fn link_body(l: LinkView) -> Seq<char> {
    "<DT><A HREF=\""@ + l.href + "\" ADD_DATE=\""@ + decimal(l.add_date as nat)
        + "\" LAST_MODIFIED=\""@ + decimal(l.last_modified as nat) + "\">"@ + l.name + "</A>"@
}

proof fn lemma_parse_link_body(l: LinkView)
    requires
        link_renderable(l),
    ensures
        parse_link(link_body(l)) == Some(LinkView { description: None, ..l }),
{
    reveal(parse_link);
    reveal_strlit("<DT><A HREF=\"");
    reveal_strlit("\" ADD_DATE=\"");
    reveal_strlit("\" LAST_MODIFIED=\"");
    reveal_strlit("\">");
    reveal_strlit("</A>");
    reveal_strlit("<DT><A ");
    reveal_strlit("HREF=\"");
    reveal_strlit("ADD_DATE=\"");
    reveal_strlit("LAST_MODIFIED=\"");
    let t = link_body(l);
    let h = l.href;
    let d1 = decimal(l.add_date as nat);
    let d2 = decimal(l.last_modified as nat);
    lemma_decimal(l.add_date as nat);
    lemma_decimal(l.last_modified as nat);
    let hs: int = 13;
    let he = hs + h.len();
    let q1 = he + 12;
    let e1 = q1 + d1.len();
    let q2 = e1 + 17;
    let e2 = q2 + d2.len();
    let ns = e2 + 2;
    let ne = ns + l.name.len();
    assert(t.len() == ne + 4);
    assert(t.subrange(0, 7) =~= "<DT><A "@);
    lemma_skip_one_ws(t, 6);
    assert(t.subrange(7, 13) =~= "HREF=\""@);
    assert(t.subrange(hs, he) =~= h);
    assert forall|k: int| hs <= k < he implies #[trigger] t[k] != '"' by {
        assert(t[k] == h[k - hs]);
    }
    lemma_find_char_run(t, hs, he, '"');
    assert(t.subrange(he + 2, he + 12) =~= "ADD_DATE=\""@);
    assert(t.subrange(q1, e1) =~= d1);
    lemma_attr_read(t, he + 1, "ADD_DATE=\""@, l.add_date);
    assert(t.subrange(e1 + 2, e1 + 17) =~= "LAST_MODIFIED=\""@);
    assert(t.subrange(q2, e2) =~= d2);
    lemma_attr_read(t, e1 + 1, "LAST_MODIFIED=\""@, l.last_modified);
    assert(t[e2 + 1] == '>');
    assert(t.subrange(ns, ne) =~= l.name);
    assert forall|k: int| ns <= k < ne implies #[trigger] t[k] != '<' by {
        assert(t[k] == l.name[k - ns]);
    }
    lemma_find_char_run(t, ns, ne, '<');
    assert(t.subrange(ne, ne + 4) =~= "</A>"@);
}

} // verus!

verus! {

proof fn lemma_trim_start_len(s: Seq<char>)
    ensures
        trim_start(s).len() <= s.len(),
        s.len() > 0 && is_ws(s[0]) ==> trim_start(s).len() < s.len(),
    decreases s.len(),
{
    if s.len() > 0 && is_ws(s[0]) {
        lemma_trim_start_len(s.drop_first());
    }
}

proof fn lemma_trim_end_len(s: Seq<char>)
    ensures
        trim_end(s).len() <= s.len(),
        s.len() > 0 && is_ws(s.last()) ==> trim_end(s).len() < s.len(),
    decreases s.len(),
{
    if s.len() > 0 && is_ws(s.last()) {
        lemma_trim_end_len(s.drop_last());
    }
}

/// A string equal to its own trim has no whitespace at either end.
proof fn lemma_trimmed_ends(d: Seq<char>)
    requires
        trim(d) == d,
        d.len() > 0,
    ensures
        !is_ws(d[0]),
        !is_ws(d.last()),
{
    lemma_trim_start_len(d);
    lemma_trim_end_len(trim_start(d));
    if !is_ws(d[0]) {
        assert(trim_start(d) == d);
        lemma_trim_end_len(d);
    }
}

/// Indentation in front of a line without surrounding whitespace is trimmed away.
proof fn lemma_trim_indented(indent: Seq<char>, x: Seq<char>)
    requires
        forall|k: int| 0 <= k < indent.len() ==> is_ws(#[trigger] indent[k]),
        x.len() > 0,
        !is_ws(x[0]),
        !is_ws(x.last()),
    ensures
        trim(indent + x) == x,
{
    let s = indent + x;
    assert forall|k: int| 0 <= k < indent.len() implies is_ws(#[trigger] s[k]) by {
        assert(s[k] == indent[k]);
    }
    crate::text::lemma_trim_start_skip(s, indent.len() as int);
    assert(s.subrange(indent.len() as int, s.len() as int) =~= x);
    assert(trim_start(x) == x);
    assert(trim_end(x) == x);
}

pub open spec fn is_indent(indent: Seq<char>) -> bool {
    indent == "    "@ || indent == "        "@
}

proof fn lemma_indent_ws(indent: Seq<char>)
    requires
        is_indent(indent),
    ensures
        forall|k: int| 0 <= k < indent.len() ==> is_ws(#[trigger] indent[k]),
{
    reveal_strlit("    ");
    reveal_strlit("        ");
}

proof fn lemma_link_line_trim(indent: Seq<char>, l: LinkView)
    requires
        is_indent(indent),
        link_renderable(l),
    ensures
        trim(link_line(indent, l)) == link_body(l),
        link_body(l)[0] == '<',
        link_body(l)[1] == 'D',
        link_body(l)[2] == 'T',
{
    reveal_strlit("<DT><A HREF=\"");
    reveal_strlit("</A>");
    let b = link_body(l);
    assert(link_line(indent, l) =~= indent + b);
    assert(b.last() == '>');
    lemma_indent_ws(indent);
    lemma_trim_indented(indent, b);
}

/// A caption line gives back its caption.
proof fn lemma_caption_line(indent: Seq<char>, d: Seq<char>)
    requires
        is_indent(indent),
        trim(d) == d,
    ensures
        caption_of(indent + "<DD>"@ + d) == Some(d),
{
    reveal(caption_of);
    reveal_strlit("<DD>");
    let x = "<DD>"@ + d;
    assert(indent + "<DD>"@ + d =~= indent + x);
    if d.len() > 0 {
        lemma_trimmed_ends(d);
        assert(x.last() == d.last());
    }
    lemma_indent_ws(indent);
    lemma_trim_indented(indent, x);
    assert(x.subrange(0, 4) =~= "<DD>"@);
    assert(x.subrange(4, x.len() as int) =~= d);
}

/// A line whose trimmed text starts `<DT>` or `</` is no caption line.
proof fn lemma_not_caption(line: Seq<char>)
    requires
        trim(line).len() >= 3,
        trim(line)[0] == '<',
        trim(line)[1] == '/' || (trim(line)[1] == 'D' && trim(line)[2] == 'T'),
    ensures
        caption_of(line) is None,
{
    reveal(caption_of);
    reveal_strlit("<DD>");
    let t = trim(line);
    if has_at(t, 0, "<DD>"@) {
        assert(t.subrange(0, 4)[1] == t[1]);
        assert(t.subrange(0, 4)[2] == t[2]);
    }
}

pub open spec fn folder_body(name: Seq<char>, last_modified: u64) -> Seq<char> {
    "<DT><H3 LAST_MODIFIED=\""@ + decimal(last_modified as nat) + "\">"@ + name + "</H3>"@
}

proof fn lemma_folder_line(name: Seq<char>, lm: u64)
    requires
        name.len() > 0,
        no_char(name, '<'),
    ensures
        trim(folder_line(name, lm)) == folder_body(name, lm),
        parse_folder(folder_body(name, lm)) == Some((name, lm)),
        parse_link(folder_body(name, lm)) is None,
        folder_body(name, lm)[0] == '<',
        folder_body(name, lm)[1] == 'D',
        folder_body(name, lm)[2] == 'T',
{
    reveal(parse_folder);
    reveal(parse_link);
    reveal_strlit("    <DT><H3 LAST_MODIFIED=\"");
    reveal_strlit("<DT><H3 LAST_MODIFIED=\"");
    reveal_strlit("\">");
    reveal_strlit("</H3>");
    reveal_strlit("<DT><H3");
    reveal_strlit("<DT><A ");
    reveal_strlit("ADD_DATE=\"");
    reveal_strlit("LAST_MODIFIED=\"");
    reveal_strlit("    ");
    let t = folder_body(name, lm);
    let dec = decimal(lm as nat);
    lemma_decimal(lm as nat);
    assert(folder_line(name, lm) =~= "    "@ + t);
    assert(t.last() == '>');
    lemma_indent_ws("    "@);
    lemma_trim_indented("    "@, t);
    let q: int = 23;
    let e = q + dec.len();
    let ns = e + 2;
    let ne = ns + name.len();
    assert(t.len() == ne + 5);
    assert(t.subrange(0, 7) =~= "<DT><H3"@);
    lemma_skip_one_ws(t, 7);
    if has_at(t, 8, "ADD_DATE=\""@) {
        assert(t.subrange(8, 18)[0] == t[8]);
    }
    assert(attr_value(t, 7, "ADD_DATE=\""@) == (0u64, 7int));
    assert(t.subrange(8, 23) =~= "LAST_MODIFIED=\""@);
    assert(t.subrange(q, e) =~= dec);
    lemma_attr_read(t, 7, "LAST_MODIFIED=\""@, lm);
    assert(t[e + 1] == '>');
    assert(t.subrange(ns, ne) =~= name);
    assert forall|k: int| ns <= k < ne implies #[trigger] t[k] != '<' by {
        assert(t[k] == name[k - ns]);
    }
    lemma_find_char_run(t, ns, ne, '<');
    assert(t.subrange(ne, ne + 5) =~= "</H3>"@);
    if has_at(t, 0, "<DT><A "@) {
        assert(t.subrange(0, 7)[5] == t[5]);
    }
}

} // verus!

verus! {

/// A folder the format can carry: a non-empty name without `<` or newline,
/// holding links it can carry.
pub open spec fn item_renderable(item: ItemView) -> bool {
    match item {
        ItemView::Link(l) => link_renderable(l),
        ItemView::Folder(f) => {
            &&& f.name.len() > 0
            &&& no_char(f.name, '<')
            &&& no_char(f.name, '\n')
            &&& forall|k: int| 0 <= k < f.entries.len() ==> link_renderable(#[trigger] f.entries[k])
        },
    }
}

pub open spec fn items_renderable(items: Seq<ItemView>) -> bool {
    forall|k: int| 0 <= k < items.len() ==> item_renderable(#[trigger] items[k])
}

pub open spec fn no_caption_first(ls: Seq<Seq<char>>) -> bool {
    ls.len() == 0 || caption_of(ls[0]) is None
}

pub proof fn lemma_unfold(ls: Seq<Seq<char>>, open: Option<FolderView>)
    requires
        ls.len() > 0,
    ensures
        parse_lines(ls, open) == step(ls, open).0 + parse_lines(
            ls.skip(step(ls, open).1),
            step(ls, open).2,
        ),
{
    lemma_step_uses(ls, open);
}

proof fn lemma_link_machine(
    indent: Seq<char>,
    l: LinkView,
    rest: Seq<Seq<char>>,
    open: Option<FolderView>,
)
    requires
        is_indent(indent),
        link_renderable(l),
        no_caption_first(rest),
    ensures
        parse_lines(link_lines(indent, l) + rest, open) == match open {
            None => seq![ItemView::Link(l)] + parse_lines(rest, None),
            Some(f) => parse_lines(rest, Some(FolderView { entries: f.entries.push(l), ..f })),
        },
{
    reveal_strlit("</DL>");
    let ls = link_lines(indent, l) + rest;
    let t = trim(ls[0]);
    assert(ls[0] == link_line(indent, l));
    lemma_link_line_trim(indent, l);
    lemma_parse_link_body(l);
    if has_at(t, 0, "</DL>"@) {
        assert(t.subrange(0, 5)[1] == t[1]);
    }
    let r1 = ls.drop_first();
    match l.description {
        Some(d) => {
            assert(r1[0] == indent + "<DD>"@ + d);
            lemma_caption_line(indent, d);
            assert(next_caption(r1) == Some(d));
            assert(ls.skip(2) =~= rest);
        },
        None => {
            assert(r1 =~= rest);
            assert(ls.skip(1) =~= rest);
        },
    }
    lemma_unfold(ls, open);
}

proof fn lemma_link_first_line(indent: Seq<char>, l: LinkView, rest: Seq<Seq<char>>)
    requires
        is_indent(indent),
        link_renderable(l),
    ensures
        no_caption_first(link_lines(indent, l) + rest),
{
    let r2 = link_lines(indent, l) + rest;
    assert(r2[0] == link_line(indent, l));
    lemma_link_line_trim(indent, l);
    lemma_not_caption(r2[0]);
}

proof fn lemma_entries_machine(es: Seq<LinkView>, rest: Seq<Seq<char>>, f: FolderView)
    requires
        forall|k: int| 0 <= k < es.len() ==> link_renderable(#[trigger] es[k]),
        no_caption_first(rest),
    ensures
        parse_lines(entries_lines(es) + rest, Some(f)) == parse_lines(
            rest,
            Some(FolderView { entries: f.entries + es, ..f }),
        ),
    decreases es.len(),
{
    reveal_strlit("        ");
    if es.len() == 0 {
        assert(entries_lines(es) + rest =~= rest);
        assert(f.entries + es =~= f.entries);
    } else {
        let es0 = es.drop_last();
        let x = es.last();
        let r2 = link_lines("        "@, x) + rest;
        assert(link_renderable(es[es.len() - 1]));
        lemma_link_first_line("        "@, x, rest);
        assert forall|k: int| 0 <= k < es0.len() implies link_renderable(#[trigger] es0[k]) by {
            assert(es0[k] == es[k]);
        }
        lemma_entries_machine(es0, r2, f);
        assert(entries_lines(es) + rest =~= entries_lines(es0) + r2);
        let f1 = FolderView { entries: f.entries + es0, ..f };
        lemma_link_machine("        "@, x, rest, Some(f1));
        assert(f1.entries.push(x) =~= f.entries + es);
    }
}

proof fn lemma_open_line()
    ensures
        trim("    <DL><p>"@) == "<DL><p>"@,
{
    reveal_strlit("    ");
    reveal_strlit("    <DL><p>");
    reveal_strlit("<DL><p>");
    assert("    <DL><p>"@ =~= "    "@ + "<DL><p>"@);
    lemma_indent_ws("    "@);
    lemma_trim_indented("    "@, "<DL><p>"@);
}

#[verifier::rlimit(30)]
proof fn lemma_folder_open_step(f: FolderView, rest: Seq<Seq<char>>)
    requires
        item_renderable(ItemView::Folder(f)),
    ensures
        step(item_lines(ItemView::Folder(f)) + rest, None) == (
            Seq::<ItemView>::empty(),
            2int,
            Some(FolderView { name: f.name, last_modified: f.last_modified, entries: seq![] }),
        ),
{
    let ls = item_lines(ItemView::Folder(f)) + rest;
    assert(ls[0] == folder_line(f.name, f.last_modified));
    lemma_folder_line(f.name, f.last_modified);
    assert(ls[1] == "    <DL><p>"@);
    lemma_open_line();
    let t0 = trim(ls[0]);
    let r = ls.drop_first();
    assert(r[0] == "    <DL><p>"@);
    assert(parse_link(t0) is None);
    assert(parse_folder(t0) == Some((f.name, f.last_modified)));
    assert(r.len() > 0 && trim(r[0]) == "<DL><p>"@);
}

proof fn lemma_close_line()
    ensures
        trim("    </DL><p>"@) == "</DL><p>"@,
        caption_of("    </DL><p>"@) is None,
        has_at(trim("    </DL><p>"@), 0, "</DL>"@),
{
    reveal_strlit("    ");
    reveal_strlit("    </DL><p>");
    reveal_strlit("</DL><p>");
    reveal_strlit("</DL>");
    assert("    </DL><p>"@ =~= "    "@ + "</DL><p>"@);
    lemma_indent_ws("    "@);
    lemma_trim_indented("    "@, "</DL><p>"@);
    lemma_not_caption("    </DL><p>"@);
    assert("</DL><p>"@.subrange(0, 5) =~= "</DL>"@);
}

proof fn lemma_folder_close_step(f: FolderView, rest: Seq<Seq<char>>)
    ensures
        parse_lines(seq!["    </DL><p>"@] + rest, Some(f)) == seq![ItemView::Folder(f)]
            + parse_lines(rest, None),
{
    let r3 = seq!["    </DL><p>"@] + rest;
    lemma_close_line();
    assert(r3[0] == "    </DL><p>"@);
    assert(step(r3, Some(f)) == (seq![ItemView::Folder(f)], 1int, None::<FolderView>));
    lemma_unfold(r3, Some(f));
    assert(r3.skip(1) =~= rest);
}

proof fn lemma_folder_machine(f: FolderView, rest: Seq<Seq<char>>)
    requires
        item_renderable(ItemView::Folder(f)),
    ensures
        parse_lines(item_lines(ItemView::Folder(f)) + rest, None) == seq![ItemView::Folder(f)]
            + parse_lines(rest, None),
{
    let ls = item_lines(ItemView::Folder(f)) + rest;
    let f0 = FolderView { name: f.name, last_modified: f.last_modified, entries: seq![] };
    lemma_folder_open_step(f, rest);
    lemma_unfold(ls, None);
    let r3 = seq!["    </DL><p>"@] + rest;
    lemma_close_line();
    assert(ls.skip(2) =~= entries_lines(f.entries) + r3);
    lemma_entries_machine(f.entries, r3, f0);
    assert(f0.entries + f.entries =~= f.entries);
    assert(FolderView { entries: f0.entries + f.entries, ..f0 } == f);
    lemma_folder_close_step(f, rest);
    assert(Seq::<ItemView>::empty() + (seq![ItemView::Folder(f)] + parse_lines(rest, None))
        =~= seq![ItemView::Folder(f)] + parse_lines(rest, None));
}

proof fn lemma_item_machine(item: ItemView, rest: Seq<Seq<char>>)
    requires
        item_renderable(item),
        no_caption_first(rest),
    ensures
        parse_lines(item_lines(item) + rest, None) == seq![item] + parse_lines(rest, None),
{
    reveal_strlit("    ");
    match item {
        ItemView::Link(l) => {
            lemma_link_machine("    "@, l, rest, None);
        },
        ItemView::Folder(f) => {
            lemma_folder_machine(f, rest);
        },
    }
}

proof fn lemma_item_first_line(x: ItemView, rest: Seq<Seq<char>>)
    requires
        item_renderable(x),
    ensures
        no_caption_first(item_lines(x) + rest),
{
    reveal_strlit("    ");
    let r2 = item_lines(x) + rest;
    match x {
        ItemView::Link(l) => {
            assert(r2[0] == link_line("    "@, l));
            lemma_link_line_trim("    "@, l);
        },
        ItemView::Folder(f) => {
            assert(r2[0] == folder_line(f.name, f.last_modified));
            lemma_folder_line(f.name, f.last_modified);
        },
    }
    lemma_not_caption(r2[0]);
}

pub proof fn lemma_items_machine(items: Seq<ItemView>, rest: Seq<Seq<char>>)
    requires
        items_renderable(items),
        no_caption_first(rest),
    ensures
        parse_lines(items_lines(items) + rest, None) == items + parse_lines(rest, None),
    decreases items.len(),
{
    if items.len() == 0 {
        assert(items_lines(items) + rest =~= rest);
        assert(items + parse_lines(rest, None) =~= parse_lines(rest, None));
    } else {
        let its0 = items.drop_last();
        let x = items.last();
        assert(item_renderable(items[items.len() - 1]));
        let r2 = item_lines(x) + rest;
        lemma_item_first_line(x, rest);
        assert forall|k: int| 0 <= k < its0.len() implies item_renderable(#[trigger] its0[k]) by {
            assert(its0[k] == items[k]);
        }
        lemma_items_machine(its0, r2);
        assert(items_lines(items) + rest =~= items_lines(its0) + r2);
        lemma_item_machine(x, rest);
        assert(its0 + (seq![x] + parse_lines(rest, None)) =~= items + parse_lines(rest, None));
    }
}

} // verus!
