//! The index renderer: a fixed preamble, then one block of lines per item.

use vstd::prelude::*;
use crate::model::{view_items, view_links, BookmarkEntry, BookmarkItem, ItemView, LinkView};
use crate::text::{decimal, decimal_string, lines_text};

verus! {

pub open spec fn link_line(indent: Seq<char>, l: LinkView) -> Seq<char> {
    indent + "<DT><A HREF=\""@ + l.href + "\" ADD_DATE=\""@ + decimal(l.add_date as nat)
        + "\" LAST_MODIFIED=\""@ + decimal(l.last_modified as nat) + "\">"@ + l.name + "</A>"@
}

/// A link's line, then its caption's line when it has one.
pub open spec fn link_lines(indent: Seq<char>, l: LinkView) -> Seq<Seq<char>> {
    match l.description {
        Some(d) => seq![link_line(indent, l), indent + "<DD>"@ + d],
        None => seq![link_line(indent, l)],
    }
}

pub open spec fn entries_lines(es: Seq<LinkView>) -> Seq<Seq<char>>
    decreases es.len(),
{
    if es.len() == 0 {
        Seq::<Seq<char>>::empty()
    } else {
        entries_lines(es.drop_last()) + link_lines("        "@, es.last())
    }
}

pub open spec fn folder_line(name: Seq<char>, last_modified: u64) -> Seq<char> {
    "    <DT><H3 LAST_MODIFIED=\""@ + decimal(last_modified as nat) + "\">"@ + name + "</H3>"@
}

pub open spec fn item_lines(item: ItemView) -> Seq<Seq<char>> {
    match item {
        ItemView::Link(l) => link_lines("    "@, l),
        ItemView::Folder(f) => seq![folder_line(f.name, f.last_modified), "    <DL><p>"@]
            + entries_lines(f.entries) + seq!["    </DL><p>"@],
    }
}

pub open spec fn items_lines(items: Seq<ItemView>) -> Seq<Seq<char>>
    decreases items.len(),
{
    if items.len() == 0 {
        Seq::<Seq<char>>::empty()
    } else {
        items_lines(items.drop_last()) + item_lines(items.last())
    }
}

pub open spec fn preamble() -> Seq<Seq<char>> {
    seq![
        "<!DOCTYPE NETSCAPE-Bookmark-file-1>"@,
        "<META HTTP-EQUIV=\"Content-Type\" CONTENT=\"text/html; charset=UTF-8\">"@,
        "<!-- This is an automatically generated file. It will be read and modified by automated tools. Edit only if you understand the risks -->"@,
        "<TITLE>Bookmarks</TITLE>"@,
    ]
}

pub open spec fn heading_line(title: Seq<char>) -> Seq<char> {
    "<H1>"@ + title + "</H1>"@
}

pub open spec fn document_lines(title: Seq<char>, items: Seq<ItemView>) -> Seq<Seq<char>> {
    preamble() + seq![heading_line(title), "<DL><p>"@] + items_lines(items) + seq!["</DL><p>"@]
}

/// The text of an index for `items` under the heading `title`.
pub open spec fn rendered(title: Seq<char>, items: Seq<ItemView>) -> Seq<char> {
    lines_text(document_lines(title, items))
}

pub proof fn lemma_lines_text_append(a: Seq<Seq<char>>, b: Seq<Seq<char>>)
    ensures
        lines_text(a + b) == lines_text(a) + lines_text(b),
    decreases b.len(),
{
    if b.len() == 0 {
        assert(a + b =~= a);
        assert(lines_text(a) + lines_text(b) =~= lines_text(a));
    } else {
        lemma_lines_text_append(a, b.drop_last());
        assert((a + b).drop_last() =~= a + b.drop_last());
        assert((a + b).last() == b.last());
        assert(lines_text(a + b) =~= lines_text(a) + lines_text(b));
    }
}

pub proof fn lemma_lines_text_one(l: Seq<char>)
    ensures
        lines_text(seq![l]) == l + seq!['\n'],
{
    assert(seq![l].drop_last() =~= Seq::<Seq<char>>::empty());
    assert(lines_text(Seq::<Seq<char>>::empty()) == Seq::<char>::empty());
    assert(seq![l].last() == l);
    assert(Seq::<char>::empty() + l =~= l);
    assert(lines_text(seq![l]) =~= l + seq!['\n']);
}

fn write_line(out: &mut String, line: &String)
    ensures
        final(out)@ == old(out)@ + lines_text(seq![line@]),
{
    out.append(line.as_str());
    out.append("\n");
    proof {
        reveal_strlit("\n");
        lemma_lines_text_one(line@);
    }
}

fn write_link(out: &mut String, indent: &str, e: &BookmarkEntry)
    ensures
        final(out)@ == old(out)@ + lines_text(link_lines(indent@, e@)),
{
    let mut line = String::new();
    line.append(indent);
    line.append("<DT><A HREF=\"");
    line.append(e.href.as_str());
    line.append("\" ADD_DATE=\"");
    let add = decimal_string(e.add_date);
    line.append(add.as_str());
    line.append("\" LAST_MODIFIED=\"");
    let lm = decimal_string(e.last_modified);
    line.append(lm.as_str());
    line.append("\">");
    line.append(e.name.as_str());
    line.append("</A>");
    assert(line@ =~= link_line(indent@, e@));
    let ghost o = out@;
    write_line(out, &line);
    match &e.description {
        Some(d) => {
            let mut dl = String::new();
            dl.append(indent);
            dl.append("<DD>");
            dl.append(d.as_str());
            write_line(out, &dl);
            proof {
                lemma_lines_text_append(seq![line@], seq![dl@]);
                assert(seq![line@] + seq![dl@] =~= link_lines(indent@, e@));
            }
        },
        None => {},
    }
}

fn write_entries(out: &mut String, entries: &Vec<BookmarkEntry>)
    ensures
        final(out)@ == old(out)@ + lines_text(entries_lines(view_links(entries@))),
{
    let ghost es = view_links(entries@);
    let ghost start = out@;
    let mut i: usize = 0;
    assert(entries_lines(es.subrange(0, 0)) =~= Seq::<Seq<char>>::empty());
    assert(start + lines_text(Seq::<Seq<char>>::empty()) =~= start);
    while i < entries.len()
        invariant
            i <= entries.len(),
            es == view_links(entries@),
            out@ == start + lines_text(entries_lines(es.subrange(0, i as int))),
        decreases entries.len() - i,
    {
        let ghost before = out@;
        write_link(out, "        ", &entries[i]);
        proof {
            let sub = es.subrange(0, i + 1);
            assert(sub.drop_last() =~= es.subrange(0, i as int));
            assert(sub.last() == entries@[i as int]@);
            lemma_lines_text_append(
                entries_lines(es.subrange(0, i as int)),
                link_lines("        "@, entries@[i as int]@),
            );
        }
        i = i + 1;
    }
    assert(es.subrange(0, entries.len() as int) =~= es);
}

fn write_item(out: &mut String, item: &BookmarkItem)
    ensures
        final(out)@ == old(out)@ + lines_text(item_lines(item@)),
{
    match item {
        BookmarkItem::Link(e) => {
            write_link(out, "    ", e);
        },
        BookmarkItem::Folder(f) => {
            let ghost start = out@;
            let mut head = String::new();
            head.append("    <DT><H3 LAST_MODIFIED=\"");
            let lm = decimal_string(f.last_modified);
            head.append(lm.as_str());
            head.append("\">");
            head.append(f.name.as_str());
            head.append("</H3>");
            assert(head@ =~= folder_line(f.name@, f.last_modified));
            write_line(out, &head);
            let open = String::from_str("    <DL><p>");
            write_line(out, &open);
            write_entries(out, &f.entries);
            let close = String::from_str("    </DL><p>");
            write_line(out, &close);
            proof {
                let a = seq![head@, open@];
                let b = entries_lines(view_links(f.entries@));
                let c = seq![close@];
                lemma_lines_text_append(seq![head@], seq![open@]);
                assert(seq![head@] + seq![open@] =~= a);
                lemma_lines_text_append(a, b);
                lemma_lines_text_append(a + b, c);
                assert(item_lines(item@) == a + b + c);
                assert(out@ =~= start + lines_text(item_lines(item@)));
            }
        },
    }
}

/// Renders an index: the preamble, the heading with `folder_name`, then the
/// items in order inside the outer list.
pub fn generate_bookmark_html(folder_name: &str, items: &[BookmarkItem]) -> (r: String)
    ensures
        r@ == rendered(folder_name@, view_items(items@)),
{
    let ghost its = view_items(items@);
    let mut out = String::new();
    let l0 = String::from_str("<!DOCTYPE NETSCAPE-Bookmark-file-1>");
    write_line(&mut out, &l0);
    let l1 = String::from_str(
        "<META HTTP-EQUIV=\"Content-Type\" CONTENT=\"text/html; charset=UTF-8\">",
    );
    write_line(&mut out, &l1);
    let l2 = String::from_str(
        "<!-- This is an automatically generated file. It will be read and modified by automated tools. Edit only if you understand the risks -->",
    );
    write_line(&mut out, &l2);
    let l3 = String::from_str("<TITLE>Bookmarks</TITLE>");
    write_line(&mut out, &l3);
    let mut l4 = String::from_str("<H1>");
    l4.append(folder_name);
    l4.append("</H1>");
    write_line(&mut out, &l4);
    let l5 = String::from_str("<DL><p>");
    write_line(&mut out, &l5);
    let ghost head = preamble() + seq![heading_line(folder_name@), "<DL><p>"@];
    proof {
        assert(head =~= seq![l0@, l1@, l2@, l3@, l4@, l5@]);
        assert(seq![l0@, l1@, l2@, l3@, l4@, l5@] =~= seq![l0@] + seq![l1@] + seq![l2@] + seq![
            l3@,
        ] + seq![l4@] + seq![l5@]);
        lemma_lines_text_append(seq![l0@], seq![l1@]);
        lemma_lines_text_append(seq![l0@] + seq![l1@], seq![l2@]);
        lemma_lines_text_append(seq![l0@] + seq![l1@] + seq![l2@], seq![l3@]);
        lemma_lines_text_append(seq![l0@] + seq![l1@] + seq![l2@] + seq![l3@], seq![l4@]);
        lemma_lines_text_append(
            seq![l0@] + seq![l1@] + seq![l2@] + seq![l3@] + seq![l4@],
            seq![l5@],
        );
        assert(out@ =~= lines_text(head));
    }
    let mut i: usize = 0;
    assert(items_lines(its.subrange(0, 0)) =~= Seq::<Seq<char>>::empty());
    assert(head + Seq::<Seq<char>>::empty() =~= head);
    while i < items.len()
        invariant
            i <= items.len(),
            its == view_items(items@),
            out@ == lines_text(head + items_lines(its.subrange(0, i as int))),
        decreases items.len() - i,
    {
        write_item(&mut out, &items[i]);
        proof {
            let sub = its.subrange(0, i + 1);
            assert(sub.drop_last() =~= its.subrange(0, i as int));
            assert(sub.last() == items@[i as int]@);
            let prev = head + items_lines(its.subrange(0, i as int));
            lemma_lines_text_append(prev, item_lines(items@[i as int]@));
            assert(prev + item_lines(items@[i as int]@) =~= head + items_lines(sub));
        }
        i = i + 1;
    }
    let last = String::from_str("</DL><p>");
    write_line(&mut out, &last);
    proof {
        assert(its.subrange(0, items.len() as int) =~= its);
        lemma_lines_text_append(head + items_lines(its), seq![last@]);
        assert(head + items_lines(its) + seq![last@] =~= document_lines(folder_name@, its));
    }
    out
}

} // verus!
