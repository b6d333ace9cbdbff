//! The index parser: the outer list is located after the `<H1>` heading,
//! then read line by line by a two-state machine (top level, inside a
//! folder).

use vstd::prelude::*;
use crate::lexer::{
    attr_exec, attr_value, entity_end, entity_end_exec, find_at, find_at_exec,
    find_char, find_char_exec, has_at, has_at_exec, skip_ws, skip_ws_exec,
};
use crate::model::{
    opt_view, view_items, view_links, BookmarkEntry, BookmarkFolder, BookmarkItem, FolderView,
    ItemView, LinkView,
};
use crate::text::{
    chars_of, is_whitespace, is_ws, lemma_trim_end_skip, lines_of, slice_of, split_lines,
    string_of, trim, trim_end, trimmed, view_lines,
};

verus! {

/// A bare `&` is one that does not open a character reference such as `&amp;`.
pub open spec fn amp_escaped(h: Seq<char>, i: int) -> bool {
    let e = entity_end(h, i + 1);
    e > i + 1 && e < h.len() && h[e] == ';'
}

/// An `href` may hold no bare `&`.
pub open spec fn href_ok(h: Seq<char>) -> bool {
    forall|i: int| 0 <= i < h.len() && h[i] == '&' ==> amp_escaped(h, i)
}

/// A trimmed link line:
/// `<DT><A HREF="href" ADD_DATE="n" LAST_MODIFIED="n">name</A>`, both dates
/// optional; the `href` is non-empty, without `"` or a bare `&`; the name is
/// non-empty, without `<`.
#[verifier::opaque]
pub open spec fn parse_link(t: Seq<char>) -> Option<LinkView> {
    if !has_at(t, 0, "<DT><A "@) {
        None
    } else {
        let p = skip_ws(t, 6);
        let hs = p + 6;
        let he = find_char(t, hs, '"');
        if !has_at(t, p, "HREF=\""@) || he >= t.len() || he == hs || !href_ok(t.subrange(hs, he)) {
            None
        } else {
            let a = attr_value(t, he + 1, "ADD_DATE=\""@);
            let m = attr_value(t, a.1, "LAST_MODIFIED=\""@);
            let ns = m.1 + 1;
            let ne = find_char(t, ns, '<');
            if !(m.1 < t.len() && t[m.1] == '>') || ne == ns || !has_at(t, ne, "</A>"@) {
                None
            } else {
                Some(
                    LinkView {
                        name: t.subrange(ns, ne),
                        href: t.subrange(hs, he),
                        add_date: a.0,
                        last_modified: m.0,
                        description: None,
                    },
                )
            }
        }
    }
}

/// A trimmed folder line: `<DT><H3 ADD_DATE="n" LAST_MODIFIED="n">name</H3>`,
/// both dates optional: the name and the modification stamp.
#[verifier::opaque]
pub open spec fn parse_folder(t: Seq<char>) -> Option<(Seq<char>, u64)> {
    if !has_at(t, 0, "<DT><H3"@) {
        None
    } else {
        let a = attr_value(t, 7, "ADD_DATE=\""@);
        let m = attr_value(t, a.1, "LAST_MODIFIED=\""@);
        let ns = m.1 + 1;
        let ne = find_char(t, ns, '<');
        if !(m.1 < t.len() && t[m.1] == '>') || ne == ns || !has_at(t, ne, "</H3>"@) {
            None
        } else {
            Some((t.subrange(ns, ne), m.0))
        }
    }
}

/// The caption a `<DD>` line carries, trimmed.
#[verifier::opaque]
pub open spec fn caption_of(line: Seq<char>) -> Option<Seq<char>> {
    let t = trim(line);
    if has_at(t, 0, "<DD>"@) {
        Some(trim(t.subrange(4, t.len() as int)))
    } else {
        None
    }
}

pub open spec fn next_caption(rest: Seq<Seq<char>>) -> Option<Seq<char>> {
    if rest.len() > 0 {
        caption_of(rest[0])
    } else {
        None
    }
}

/// The lines after a link: its caption line, when there is one, is used up.
pub open spec fn after_caption(rest: Seq<Seq<char>>) -> Seq<Seq<char>> {
    if next_caption(rest) is Some {
        rest.drop_first()
    } else {
        rest
    }
}

/// One move of the line machine on a non-empty run of lines, from a state
/// (`None` at top level, or the folder being read): the items it completes,
/// how many lines it uses, and the next state.
pub open spec fn step(ls: Seq<Seq<char>>, open: Option<FolderView>) -> (
    Seq<ItemView>,
    int,
    Option<FolderView>,
) {
    let t = trim(ls[0]);
    let rest = ls.drop_first();
    let used: int = if next_caption(rest) is Some {
        2
    } else {
        1
    };
    match open {
        Some(f) => {
            if has_at(t, 0, "</DL>"@) {
                (seq![ItemView::Folder(f)], 1, None)
            } else {
                match parse_link(t) {
                    Some(l) => (
                        Seq::<ItemView>::empty(),
                        used,
                        Some(
                            FolderView {
                                entries: f.entries.push(
                                    LinkView { description: next_caption(rest), ..l },
                                ),
                                ..f
                            },
                        ),
                    ),
                    None => (Seq::<ItemView>::empty(), 1, open),
                }
            }
        },
        None => {
            match parse_link(t) {
                Some(l) => (
                    seq![ItemView::Link(LinkView { description: next_caption(rest), ..l })],
                    used,
                    None,
                ),
                None => match parse_folder(t) {
                    Some(nf) => {
                        let f = FolderView { name: nf.0, last_modified: nf.1, entries: seq![] };
                        if rest.len() > 0 && trim(rest[0]) == "<DL><p>"@ {
                            (Seq::<ItemView>::empty(), 2, Some(f))
                        } else {
                            (seq![ItemView::Folder(f)], 1, None)
                        }
                    },
                    None => (Seq::<ItemView>::empty(), 1, None),
                },
            }
        },
    }
}

/// The items of a run of lines read from a state; a folder still open at
/// the end is complete.
pub open spec fn parse_lines(ls: Seq<Seq<char>>, open: Option<FolderView>) -> Seq<ItemView>
    decreases ls.len(),
{
    if ls.len() == 0 {
        match open {
            Some(f) => seq![ItemView::Folder(f)],
            None => Seq::<ItemView>::empty(),
        }
    } else {
        let s = step(ls, open);
        if 1 <= s.1 <= ls.len() {
            s.0 + parse_lines(ls.skip(s.1), s.2)
        } else {
            Seq::<ItemView>::empty()
        }
    }
}

pub proof fn lemma_step_uses(ls: Seq<Seq<char>>, open: Option<FolderView>)
    requires
        ls.len() > 0,
    ensures
        1 <= step(ls, open).1 <= ls.len(),
{
}

/// Where a folder's list opens after the heading's close at `j`: the end of
/// `<DL><p>` after optional whitespace, when that is no later than `k`.
pub open spec fn list_open_after(s: Seq<char>, j: int, k: int) -> Option<int> {
    let p = skip_ws(s, j);
    if has_at(s, p, "<DL><p>"@) && p + 7 <= k {
        Some(p + 7)
    } else {
        None
    }
}

/// The first heading close at or after `j` that a list opening follows.
pub open spec fn heading_close(s: Seq<char>, j: int, k: int) -> Option<int>
    decreases s.len() + 1 - j,
{
    if j < 0 || j + 5 > s.len() {
        None
    } else if has_at(s, j, "</H1>"@) && list_open_after(s, j + 5, k) is Some {
        list_open_after(s, j + 5, k)
    } else {
        heading_close(s, j + 1, k)
    }
}

/// The outer list: after the first `<H1>`, the first `</H1>` followed by
/// whitespace and `<DL><p>`, up to a `</DL><p>` that only whitespace follows.
pub open spec fn list_block(s: Seq<char>) -> Option<(int, int)> {
    match find_at(s, "<H1>"@, 0) {
        None => None,
        Some(h) => {
            let k = trim_end(s).len() - 8;
            if k >= 0 && has_at(s, k, "</DL><p>"@) {
                match heading_close(s, h + 4, k) {
                    Some(b) => Some((b, k)),
                    None => None,
                }
            } else {
                None
            }
        },
    }
}

/// The items of an index text; none when its outer list cannot be found.
pub open spec fn parsed(content: Seq<char>) -> Seq<ItemView> {
    match list_block(content) {
        Some(be) => parse_lines(split_lines(content.subrange(be.0, be.1)), None),
        None => Seq::<ItemView>::empty(),
    }
}

/// The title: the text of the first `<H1>` closed by `</H1>` on its own line.
pub open spec fn title_from(s: Seq<char>, i: int) -> Option<Seq<char>>
    decreases s.len() + 1 - i,
{
    if i < 0 || i + 4 > s.len() {
        None
    } else {
        let c = find_at(s, "</H1>"@, i + 4);
        if has_at(s, i, "<H1>"@) && c is Some && c->0 <= find_char(s, i + 4, '\n') {
            Some(s.subrange(i + 4, c->0))
        } else {
            title_from(s, i + 1)
        }
    }
}

fn href_ok_exec(t: &Vec<char>, lo: usize, hi: usize) -> (r: bool)
    requires
        lo <= hi <= t@.len(),
    ensures
        r == href_ok(t@.subrange(lo as int, hi as int)),
{
    let h = slice_of(t, lo, hi);
    let mut i: usize = 0;
    while i < h.len()
        invariant
            i <= h@.len(),
            h@ == t@.subrange(lo as int, hi as int),
            forall|k: int| 0 <= k < i && h@[k] == '&' ==> amp_escaped(h@, k),
        decreases h.len() - i,
    {
        if h[i] == '&' {
            let e = entity_end_exec(&h, i + 1);
            if !(e > i + 1 && e < h.len() && h[e] == ';') {
                assert(!amp_escaped(h@, i as int));
                return false;
            }
        }
        i = i + 1;
    }
    true
}

/// Reads a trimmed link line.
fn parse_link_line(t: &Vec<char>) -> (r: Option<BookmarkEntry>)
    ensures
        match r {
            Some(e) => parse_link(t@) == Some(e@),
            None => parse_link(t@) is None,
        },
{
    reveal(parse_link);
    if !has_at_exec(t, 0, "<DT><A ") {
        return None;
    }
    proof {
        reveal_strlit("<DT><A ");
        reveal_strlit("HREF=\"");
    }
    let tl = t.len();
    let p = skip_ws_exec(t, 6);
    if !has_at_exec(t, p, "HREF=\"") {
        return None;
    }
    let hs = p + 6;
    let he = find_char_exec(t, hs, '"');
    if he >= t.len() || he == hs || !href_ok_exec(t, hs, he) {
        return None;
    }
    let a = attr_exec(t, he + 1, "ADD_DATE=\"");
    let m = attr_exec(t, a.1, "LAST_MODIFIED=\"");
    if !(m.1 < t.len() && t[m.1] == '>') {
        return None;
    }
    let ns = m.1 + 1;
    let ne = find_char_exec(t, ns, '<');
    if ne == ns || !has_at_exec(t, ne, "</A>") {
        return None;
    }
    let name = string_of(&slice_of(t, ns, ne));
    let href = string_of(&slice_of(t, hs, he));
    Some(
        BookmarkEntry {
            name,
            href,
            add_date: a.0,
            last_modified: m.0,
            description: None,
        },
    )
}

/// Reads a trimmed folder line.
fn parse_folder_line(t: &Vec<char>) -> (r: Option<(String, u64)>)
    ensures
        match r {
            Some(nf) => parse_folder(t@) == Some((nf.0@, nf.1)),
            None => parse_folder(t@) is None,
        },
{
    reveal(parse_folder);
    if !has_at_exec(t, 0, "<DT><H3") {
        return None;
    }
    proof {
        reveal_strlit("<DT><H3");
    }
    let a = attr_exec(t, 7, "ADD_DATE=\"");
    let m = attr_exec(t, a.1, "LAST_MODIFIED=\"");
    if !(m.1 < t.len() && t[m.1] == '>') {
        return None;
    }
    let ns = m.1 + 1;
    let ne = find_char_exec(t, ns, '<');
    if ne == ns || !has_at_exec(t, ne, "</H3>") {
        return None;
    }
    Some((string_of(&slice_of(t, ns, ne)), m.0))
}

fn caption_exec(line: &Vec<char>) -> (r: Option<String>)
    ensures
        match r {
            Some(c) => caption_of(line@) == Some(c@),
            None => caption_of(line@) is None,
        },
{
    reveal(caption_of);
    let t = trimmed(line);
    if has_at_exec(&t, 0, "<DD>") {
        proof {
            reveal_strlit("<DD>");
        }
        let rest = slice_of(&t, 4, t.len());
        Some(string_of(&trimmed(&rest)))
    } else {
        None
    }
}

fn next_caption_exec(lines: &Vec<Vec<char>>, i: usize) -> (r: Option<String>)
    requires
        i <= lines@.len(),
    ensures
        match r {
            Some(c) => next_caption(view_lines(lines@).subrange(i as int, lines@.len() as int))
                == Some(c@),
            None => next_caption(
                view_lines(lines@).subrange(i as int, lines@.len() as int),
            ) is None,
        },
{
    let ghost rest = view_lines(lines@).subrange(i as int, lines@.len() as int);
    if i < lines.len() {
        assert(rest[0] == lines@[i as int]@);
        caption_exec(&lines[i])
    } else {
        None
    }
}

pub open spec fn state_view(open: Option<BookmarkFolder>) -> Option<FolderView> {
    match open {
        Some(f) => Some(f@),
        None => None,
    }
}

pub open spec fn emitted_view(e: Option<BookmarkItem>) -> Seq<ItemView> {
    match e {
        Some(it) => seq![it@],
        None => Seq::<ItemView>::empty(),
    }
}

/// One move of the line machine at line `i`.
fn step_exec(lines: &Vec<Vec<char>>, i: usize, open: Option<BookmarkFolder>) -> (r: (
    Option<BookmarkItem>,
    usize,
    Option<BookmarkFolder>,
))
    requires
        i < lines@.len(),
    ensures
        ({
            let s = step(view_lines(lines@).subrange(i as int, lines@.len() as int), state_view(open));
            &&& emitted_view(r.0) == s.0
            &&& r.1 as int == s.1
            &&& state_view(r.2) == s.2
        }),
{
    let ghost ls = view_lines(lines@).subrange(i as int, lines@.len() as int);
    let ghost rest = ls.drop_first();
    let n = lines.len();
    assert(ls[0] == lines@[i as int]@);
    assert(rest =~= view_lines(lines@).subrange(i + 1, lines@.len() as int));
    let t = trimmed(&lines[i]);
    match open {
        Some(mut f) => {
            if has_at_exec(&t, 0, "</DL>") {
                let it = BookmarkItem::Folder(f);
                assert(emitted_view(Some(it)) =~= seq![it@]);
                assert(step(ls, state_view(Some(f))).0 =~= seq![it@]);
                return (Some(it), 1, None);
            }
            match parse_link_line(&t) {
                Some(e) => {
                    let cap = next_caption_exec(lines, i + 1);
                    let used: usize = if cap.is_some() {
                        2
                    } else {
                        1
                    };
                    let e2 = BookmarkEntry { description: cap, ..e };
                    let ghost fv = f@;
                    f.entries.push(e2);
                    assert(view_links(f.entries@) =~= fv.entries.push(e2@));
                    assert(emitted_view(None) =~= Seq::<ItemView>::empty());
                    (None, used, Some(f))
                },
                None => {
                    assert(emitted_view(None) =~= Seq::<ItemView>::empty());
                    (None, 1, Some(f))
                },
            }
        },
        None => {
            match parse_link_line(&t) {
                Some(e) => {
                    let cap = next_caption_exec(lines, i + 1);
                    let used: usize = if cap.is_some() {
                        2
                    } else {
                        1
                    };
                    let e2 = BookmarkEntry { description: cap, ..e };
                    assert(opt_view(cap) == next_caption(rest));
                    assert(e2@ == LinkView { description: next_caption(rest), ..e@ });
                    let it = BookmarkItem::Link(e2);
                    assert(emitted_view(Some(it)) =~= seq![it@]);
                    assert(step(ls, None).0 =~= seq![it@]);
                    (Some(it), used, None)
                },
                None => {
                    match parse_folder_line(&t) {
                        Some(nf) => {
                            let (fname, flm) = nf;
                            let opens = if i + 1 < lines.len() {
                                let t2 = trimmed(&lines[i + 1]);
                                has_at_exec(&t2, 0, "<DL><p>") && t2.len() == 7
                            } else {
                                false
                            };
                            proof {
                                if i + 1 < lines@.len() {
                                    assert(rest[0] == lines@[i + 1]@);
                                    reveal_strlit("<DL><p>");
                                    let t2 = trim(rest[0]);
                                    if t2.len() == 7 {
                                        assert(t2.subrange(0, 7) =~= t2);
                                    }
                                    assert(opens == (t2 == "<DL><p>"@));
                                }
                            }
                            let folder = BookmarkFolder {
                                name: fname,
                                last_modified: flm,
                                entries: Vec::new(),
                            };
                            assert(view_links(folder.entries@) =~= Seq::<LinkView>::empty());
                            if opens {
                                assert(emitted_view(None) =~= Seq::<ItemView>::empty());
                                (None, 2, Some(folder))
                            } else {
                                let it = BookmarkItem::Folder(folder);
                                assert(emitted_view(Some(it)) =~= seq![it@]);
                                assert(step(ls, None).0 =~= seq![it@]);
                                (Some(it), 1, None)
                            }
                        },
                        None => {
                            assert(emitted_view(None) =~= Seq::<ItemView>::empty());
                            (None, 1, None)
                        },
                    }
                },
            }
        },
    }
}

/// Runs the line state machine over all lines.
pub fn parse_lines_exec(lines: &Vec<Vec<char>>) -> (r: Vec<BookmarkItem>)
    ensures
        view_items(r@) == parse_lines(view_lines(lines@), None),
{
    let ghost ls = view_lines(lines@);
    let n = lines.len();
    let mut out: Vec<BookmarkItem> = Vec::new();
    let mut open: Option<BookmarkFolder> = None;
    let mut i: usize = 0;
    assert(ls.subrange(0, n as int) =~= ls);
    assert(view_items(out@) =~= Seq::<ItemView>::empty());
    while i < n
        invariant
            n == lines@.len(),
            i <= n,
            ls == view_lines(lines@),
            view_items(out@) + parse_lines(ls.subrange(i as int, n as int), state_view(open))
                == parse_lines(ls, None),
        decreases n - i,
    {
        let ghost cur = ls.subrange(i as int, n as int);
        let ghost before = view_items(out@);
        proof {
            lemma_step_uses(cur, state_view(open));
        }
        let (em, used, next) = step_exec(lines, i, open);
        let ghost s = step(cur, state_view(open));
        match em {
            Some(it) => {
                out.push(it);
                assert(view_items(out@) =~= before + seq![it@]);
            },
            None => {
                assert(view_items(out@) =~= before + Seq::<ItemView>::empty());
            },
        }
        assert(cur.skip(s.1) =~= ls.subrange(i + used, n as int));
        assert(view_items(out@) + parse_lines(cur.skip(s.1), s.2) =~= before + (s.0 + parse_lines(cur.skip(s.1), s.2)));
        i = i + used;
        open = next;
    }
    match open {
        Some(f) => {
            let ghost before = view_items(out@);
            out.push(BookmarkItem::Folder(f));
            assert(view_items(out@) =~= before + seq![ItemView::Folder(f@)]);
        },
        None => {},
    }
    assert(ls.subrange(n as int, n as int) =~= Seq::<Seq<char>>::empty());
    assert(view_items(out@) =~= parse_lines(ls, None));
    out
}

fn heading_close_exec(s: &Vec<char>, from: usize, k: usize) -> (r: Option<usize>)
    requires
        from <= s@.len(),
    ensures
        match r {
            Some(b) => heading_close(s@, from as int, k as int) == Some(b as int) && b <= k,
            None => heading_close(s@, from as int, k as int) is None,
        },
{
    let n = s.len();
    let mut j = from;
    while j < n && n - j >= 5
        invariant
            from <= j <= n,
            n == s@.len(),
            heading_close(s@, from as int, k as int) == heading_close(s@, j as int, k as int),
        decreases n - j,
    {
        if has_at_exec(s, j, "</H1>") {
            let p = skip_ws_exec(s, j + 5);
            if has_at_exec(s, p, "<DL><p>") && p <= k && 7 <= k - p {
                proof {
                    reveal_strlit("<DL><p>");
                }
                return Some(p + 7);
            }
        }
        j = j + 1;
    }
    None
}

/// Where the outer list's contents start and end.
fn list_block_exec(s: &Vec<char>) -> (r: Option<(usize, usize)>)
    ensures
        match r {
            Some(be) => list_block(s@) == Some((be.0 as int, be.1 as int)) && be.0 <= be.1
                <= s@.len(),
            None => list_block(s@) is None,
        },
{
    proof {
        reveal_strlit("<H1>");
        reveal_strlit("</DL><p>");
    }
    let h = match find_at_exec(s, "<H1>", 0) {
        Some(h) => h,
        None => {
            return None;
        },
    };
    let mut b = s.len();
    while b > 0 && is_whitespace(s[b - 1])
        invariant
            b <= s@.len(),
            forall|q: int| b <= q < s@.len() ==> is_ws(#[trigger] s@[q]),
        decreases b,
    {
        b = b - 1;
    }
    proof {
        lemma_trim_end_skip(s@, b as int);
        let u = s@.subrange(0, b as int);
        assert(!(u.len() > 0 && is_ws(u.last())));
        assert(trim_end(s@) == u);
    }
    if b < 8 || !has_at_exec(s, b - 8, "</DL><p>") {
        return None;
    }
    let k = b - 8;
    match heading_close_exec(s, h + 4, k) {
        Some(start) => Some((start, k)),
        None => None,
    }
}

/// Reads the items of an index file. A text whose outer list cannot be found
/// reads as no items; lines that match neither item shape are skipped.
pub fn parse_existing_bookmarks(content: &str) -> (r: Vec<BookmarkItem>)
    ensures
        view_items(r@) == parsed(content@),
{
    let s = chars_of(content);
    match list_block_exec(&s) {
        Some(be) => {
            let lines = lines_of(&s, be.0, be.1);
            parse_lines_exec(&lines)
        },
        None => {
            let v: Vec<BookmarkItem> = Vec::new();
            assert(view_items(v@) =~= Seq::<ItemView>::empty());
            v
        },
    }
}

/// The index's title: the text of its first one-line `<H1>` heading, or
/// `Untitled` when it has none.
pub fn extract_title_from_bookmarks(content: &str) -> (r: String)
    ensures
        r@ == match title_from(content@, 0) {
            Some(t) => t,
            None => "Untitled"@,
        },
{
    let s = chars_of(content);
    let n = s.len();
    let mut i: usize = 0;
    while i < n && n - i >= 4
        invariant
            i <= n,
            n == s@.len(),
            s@ == content@,
            title_from(content@, 0) == title_from(s@, i as int),
        decreases n - i,
    {
        let c = find_at_exec(&s, "</H1>", i + 4);
        match c {
            Some(c) => {
                if has_at_exec(&s, i, "<H1>") && c <= find_char_exec(&s, i + 4, '\n') {
                    proof {
                        reveal_strlit("</H1>");
                    }
                    return string_of(&slice_of(&s, i + 4, c));
                }
            },
            None => {},
        }
        i = i + 1;
    }
    String::from_str("Untitled")
}

} // verus!
