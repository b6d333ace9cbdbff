//! The scanner's rules: which directory entries become file or folder
//! candidates, and in what order.

use vstd::prelude::*;
use crate::text::chars_of;

verus! {

broadcast use vstd::seq_lib::group_to_multiset_ensures;

/// What a directory entry is, as the filesystem reports it.
#[derive(Clone, Copy, Debug, PartialEq, Eq, Structural)]
pub enum EntryKind {
    Dir,
    File,
    Other,
}

/// One entry of a directory listing.
#[derive(Clone, Debug, PartialEq, Eq)]
pub struct DirEntry {
    pub name: String,
    pub kind: EntryKind,
}

/// Names left out of a scan: the index file itself and every hidden entry.
pub open spec fn is_excluded(name: Seq<char>, index_filename: Seq<char>) -> bool {
    name == index_filename || (name.len() > 0 && name[0] == '.')
}

/// Lexicographic order on code points, which is the byte order of UTF-8.
pub open spec fn name_le(a: Seq<char>, b: Seq<char>) -> bool
    decreases a.len(),
{
    if a.len() == 0 {
        true
    } else if b.len() == 0 {
        false
    } else if a[0] != b[0] {
        a[0] < b[0]
    } else {
        name_le(a.drop_first(), b.drop_first())
    }
}

pub open spec fn sorted_names(s: Seq<Seq<char>>) -> bool {
    forall|i: int, j: int| 0 <= i < j < s.len() ==> name_le(#[trigger] s[i], #[trigger] s[j])
}

pub open spec fn view_names(v: Seq<String>) -> Seq<Seq<char>> {
    v.map_values(|s: String| s@)
}

/// The names of the entries of one kind that are not excluded, in listing order.
pub open spec fn selected(entries: Seq<DirEntry>, index_filename: Seq<char>, kind: EntryKind) -> Seq<
    Seq<char>,
>
    decreases entries.len(),
{
    if entries.len() == 0 {
        Seq::<Seq<char>>::empty()
    } else {
        let prev = selected(entries.drop_last(), index_filename, kind);
        let e = entries.last();
        if e.kind == kind && !is_excluded(e.name@, index_filename) {
            prev.push(e.name@)
        } else {
            prev
        }
    }
}

proof fn lemma_name_le_total(a: Seq<char>, b: Seq<char>)
    ensures
        name_le(a, b) || name_le(b, a),
    decreases a.len(),
{
    if a.len() > 0 && b.len() > 0 && a[0] == b[0] {
        lemma_name_le_total(a.drop_first(), b.drop_first());
    }
}

proof fn lemma_name_le_trans(a: Seq<char>, b: Seq<char>, c: Seq<char>)
    requires
        name_le(a, b),
        name_le(b, c),
    ensures
        name_le(a, c),
    decreases a.len(),
{
    if a.len() > 0 && b.len() > 0 && c.len() > 0 && a[0] == b[0] && b[0] == c[0] {
        lemma_name_le_trans(a.drop_first(), b.drop_first(), c.drop_first());
    }
}

fn name_le_exec(a: &Vec<char>, b: &Vec<char>) -> (r: bool)
    ensures
        r == name_le(a@, b@),
{
    let mut i: usize = 0;
    assert(a@.skip(0) =~= a@ && b@.skip(0) =~= b@);
    while i < a.len() && i < b.len() && a[i] == b[i]
        invariant
            i <= a@.len(),
            i <= b@.len(),
            name_le(a@, b@) == name_le(a@.skip(i as int), b@.skip(i as int)),
        decreases a.len() - i,
    {
        assert(a@.skip(i as int).drop_first() =~= a@.skip(i + 1));
        assert(b@.skip(i as int).drop_first() =~= b@.skip(i + 1));
        i = i + 1;
    }
    if i == a.len() {
        true
    } else if i == b.len() {
        false
    } else {
        a[i] < b[i]
    }
}

/// Sorts names in ascending lexicographic order.
pub fn sort_names(names: Vec<String>) -> (r: Vec<String>)
    ensures
        sorted_names(view_names(r@)),
        view_names(r@).to_multiset() == view_names(names@).to_multiset(),
{
    let ghost input = view_names(names@);
    let mut out: Vec<String> = Vec::new();
    let mut keys: Vec<Vec<char>> = Vec::new();
    let mut i: usize = 0;
    assert(view_names(out@) =~= input.subrange(0, 0));
    while i < names.len()
        invariant
            i <= names@.len(),
            input == view_names(names@),
            keys@.len() == out@.len(),
            forall|k: int| 0 <= k < out@.len() ==> (#[trigger] keys@[k])@ == out@[k]@,
            sorted_names(view_names(out@)),
            view_names(out@).to_multiset() == input.subrange(0, i as int).to_multiset(),
        decreases names.len() - i,
    {
        let x = names[i].clone();
        let xk = chars_of(x.as_str());
        let mut pos: usize = 0;
        while pos < out.len() && name_le_exec(&keys[pos], &xk)
            invariant
                pos <= out@.len(),
                xk@ == x@,
                keys@.len() == out@.len(),
                forall|k: int| 0 <= k < out@.len() ==> (#[trigger] keys@[k])@ == out@[k]@,
                forall|k: int| 0 <= k < pos ==> name_le(#[trigger] out@[k]@, x@),
            decreases out.len() - pos,
        {
            pos = pos + 1;
        }
        let ghost before = view_names(out@);
        proof {
            if pos < out@.len() {
                lemma_name_le_total(x@, before[pos as int]);
                assert(name_le(x@, before[pos as int]));
            }
        }
        out.insert(pos, x);
        keys.insert(pos, xk);
        let ghost after = view_names(out@);
        proof {
            assert(after =~= before.insert(pos as int, x@));
            assert forall|a: int, b: int| 0 <= a < b < after.len() implies name_le(
                #[trigger] after[a],
                #[trigger] after[b],
            ) by {
                if b < pos {
                    assert(after[a] == before[a] && after[b] == before[b]);
                } else if b == pos {
                    assert(after[a] == before[a]);
                } else if a == pos {
                    assert(after[b] == before[b - 1]);
                    if b - 1 > pos {
                        lemma_name_le_trans(x@, before[pos as int], before[b - 1]);
                    }
                } else if a < pos {
                    assert(after[a] == before[a] && after[b] == before[b - 1]);
                } else {
                    assert(after[a] == before[a - 1] && after[b] == before[b - 1]);
                }
            }
            assert(after.remove(pos as int) =~= before);
            assert(after[pos as int] == x@);
            assert(input.subrange(0, i + 1) =~= input.subrange(0, i as int).push(x@));
        }
        i = i + 1;
    }
    assert(input.subrange(0, names@.len() as int) =~= input);
    out
}

/// Whether a directory entry is hidden: its name starts with `.`.
pub fn is_hidden(name: &str) -> (r: bool)
    ensures
        r == (name@.len() > 0 && name@[0] == '.'),
{
    let chars = chars_of(name);
    chars.len() > 0 && chars[0] == '.'
}

fn selected_exec(entries: &Vec<DirEntry>, index_filename: &str, kind: EntryKind) -> (r: Vec<String>)
    ensures
        view_names(r@) == selected(entries@, index_filename@, kind),
{
    let index = chars_of(index_filename);
    let mut out: Vec<String> = Vec::new();
    let mut i: usize = 0;
    assert(entries@.subrange(0, 0) =~= Seq::<DirEntry>::empty());
    while i < entries.len()
        invariant
            i <= entries@.len(),
            index@ == index_filename@,
            view_names(out@) == selected(entries@.subrange(0, i as int), index_filename@, kind),
        decreases entries.len() - i,
    {
        let e = &entries[i];
        assert(entries@.subrange(0, i + 1).drop_last() =~= entries@.subrange(0, i as int));
        let name = chars_of(e.name.as_str());
        let hidden = is_hidden(e.name.as_str());
        let same = same_chars(&name, &index);
        if e.kind == kind && !same && !hidden {
            out.push(e.name.clone());
            assert(view_names(out@) =~= selected(
                entries@.subrange(0, i as int),
                index_filename@,
                kind,
            ).push(e.name@));
        }
        i = i + 1;
    }
    assert(entries@.subrange(0, entries@.len() as int) =~= entries@);
    out
}

fn same_chars(a: &Vec<char>, b: &Vec<char>) -> (r: bool)
    ensures
        r == (a@ == b@),
{
    if a.len() != b.len() {
        return false;
    }
    let mut i: usize = 0;
    while i < a.len()
        invariant
            i <= a@.len(),
            a@.len() == b@.len(),
            forall|k: int| 0 <= k < i ==> a@[k] == b@[k],
        decreases a.len() - i,
    {
        if a[i] != b[i] {
            return false;
        }
        i = i + 1;
    }
    assert(a@ =~= b@);
    true
}

proof fn lemma_selected_kept(entries: Seq<DirEntry>, index_filename: Seq<char>, kind: EntryKind)
    ensures
        forall|k: int|
            0 <= k < selected(entries, index_filename, kind).len() ==> !is_excluded(
                #[trigger] selected(entries, index_filename, kind)[k],
                index_filename,
            ),
    decreases entries.len(),
{
    if entries.len() > 0 {
        let prev = selected(entries.drop_last(), index_filename, kind);
        let r = selected(entries, index_filename, kind);
        lemma_selected_kept(entries.drop_last(), index_filename, kind);
        assert forall|k: int| 0 <= k < r.len() implies !is_excluded(
            #[trigger] r[k],
            index_filename,
        ) by {
            if k < prev.len() {
                assert(r[k] == prev[k]);
            }
        }
    }
}

/// Chooses the candidates of a directory listing: the files, and the
/// subdirectories when `recursive` is set (else none), each list in
/// ascending order of name. The index file and every name that starts with
/// `.` are left out of both.
pub fn scan_directory(entries: &Vec<DirEntry>, index_filename: &str, recursive: bool) -> (r: (
    Vec<String>,
    Vec<String>,
))
    ensures
        sorted_names(view_names(r.0@)),
        sorted_names(view_names(r.1@)),
        view_names(r.0@).to_multiset() == selected(
            entries@,
            index_filename@,
            EntryKind::File,
        ).to_multiset(),
        recursive ==> view_names(r.1@).to_multiset() == selected(
            entries@,
            index_filename@,
            EntryKind::Dir,
        ).to_multiset(),
        !recursive ==> r.1@.len() == 0,
        forall|k: int|
            0 <= k < r.0@.len() ==> !is_excluded(#[trigger] r.0@[k]@, index_filename@),
        forall|k: int|
            0 <= k < r.1@.len() ==> !is_excluded(#[trigger] r.1@[k]@, index_filename@),
{
    let files = sort_names(selected_exec(entries, index_filename, EntryKind::File));
    let dirs = if recursive {
        sort_names(selected_exec(entries, index_filename, EntryKind::Dir))
    } else {
        Vec::new()
    };
    proof {
        lemma_selected_kept(entries@, index_filename@, EntryKind::File);
        lemma_selected_kept(entries@, index_filename@, EntryKind::Dir);
        let fsel = selected(entries@, index_filename@, EntryKind::File);
        let dsel = selected(entries@, index_filename@, EntryKind::Dir);
        assert forall|k: int| 0 <= k < files@.len() implies !is_excluded(
            #[trigger] files@[k]@,
            index_filename@,
        ) by {
            let v = view_names(files@);
            assert(v[k] == files@[k]@);
            assert(v.to_multiset().count(v[k]) > 0);
            assert(fsel.contains(v[k]));
        }
        assert forall|k: int| 0 <= k < dirs@.len() implies !is_excluded(
            #[trigger] dirs@[k]@,
            index_filename@,
        ) by {
            let v = view_names(dirs@);
            assert(v[k] == dirs@[k]@);
            assert(v.to_multiset().count(v[k]) > 0);
            assert(dsel.contains(v[k]));
        }
        if !recursive {
            assert(sorted_names(view_names(dirs@)));
        }
    }
    (files, dirs)
}

} // verus!
