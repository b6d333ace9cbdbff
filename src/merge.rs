//! The merge engine: existing items are kept as they are, in order, and what
//! the scan found that the index lacks is appended.

use vstd::prelude::*;
use crate::encode::{encode_name, encode_path_preserving_slashes, encoded_path, percent_encoded};
use crate::model::{
    view_dirs, view_files, view_items, view_links, BookmarkEntry, BookmarkFolder, BookmarkItem,
    DirView, FileView, FolderView, ItemView, LinkView, ScannedDir, ScannedFile,
};

verus! {

/// The `href` of a top-level file.
pub open spec fn file_href(name: Seq<char>) -> Seq<char> {
    percent_encoded(name)
}

/// The `href` of a file inside a subdirectory: the path relative to the
/// scanned folder, encoded segment by segment.
pub open spec fn nested_href(dir: Seq<char>, name: Seq<char>) -> Seq<char> {
    encoded_path(seq![dir, name])
}

/// A link for a newly found file: no caption.
pub open spec fn new_link(f: FileView, href: Seq<char>) -> LinkView {
    LinkView {
        name: f.name,
        href,
        add_date: f.add_date,
        last_modified: f.last_modified,
        description: None,
    }
}

pub open spec fn is_link_to(item: ItemView, href: Seq<char>) -> bool {
    match item {
        ItemView::Link(l) => l.href == href,
        ItemView::Folder(_) => false,
    }
}

pub open spec fn is_folder_named(item: ItemView, name: Seq<char>) -> bool {
    match item {
        ItemView::Link(_) => false,
        ItemView::Folder(f) => f.name == name,
    }
}

pub open spec fn folder_of(item: ItemView) -> FolderView {
    match item {
        ItemView::Folder(f) => f,
        ItemView::Link(l) => FolderView { name: l.name, last_modified: 0, entries: seq![] },
    }
}

/// Whether a list holds a Link with this `href`.
pub open spec fn has_link(items: Seq<ItemView>, href: Seq<char>) -> bool {
    exists|i: int| 0 <= i < items.len() && #[trigger] is_link_to(items[i], href)
}

/// Whether a folder's entries hold a link with this `href`.
pub open spec fn has_entry(entries: Seq<LinkView>, href: Seq<char>) -> bool {
    exists|i: int| 0 <= i < entries.len() && #[trigger] entries[i].href == href
}

/// The position of the last folder with this name, if any.
pub open spec fn folder_index(items: Seq<ItemView>, name: Seq<char>) -> Option<int>
    decreases items.len(),
{
    if items.len() == 0 {
        None
    } else if is_folder_named(items.last(), name) {
        Some(items.len() - 1)
    } else {
        folder_index(items.drop_last(), name)
    }
}

pub proof fn lemma_folder_index(items: Seq<ItemView>, name: Seq<char>)
    ensures
        match folder_index(items, name) {
            Some(i) => 0 <= i < items.len() && is_folder_named(items[i], name) && forall|
                j: int,
            |
                i < j < items.len() ==> !is_folder_named(#[trigger] items[j], name),
            None => forall|j: int| 0 <= j < items.len() ==> !is_folder_named(#[trigger] items[j], name),
        },
    decreases items.len(),
{
    if items.len() > 0 {
        lemma_folder_index(items.drop_last(), name);
        let prev = items.drop_last();
        assert(forall|j: int| 0 <= j < prev.len() ==> items[j] == #[trigger] prev[j]);
        if !is_folder_named(items.last(), name) {
            assert(folder_index(items, name) == folder_index(prev, name));
            assert(!is_folder_named(items[items.len() - 1], name));
            match folder_index(prev, name) {
                Some(i) => {
                    assert forall|j: int| i < j < items.len() implies !is_folder_named(
                        #[trigger] items[j],
                        name,
                    ) by {
                        if j < prev.len() {
                            assert(items[j] == prev[j]);
                        }
                    }
                },
                None => {
                    assert forall|j: int| 0 <= j < items.len() implies !is_folder_named(
                        #[trigger] items[j],
                        name,
                    ) by {
                        if j < prev.len() {
                            assert(items[j] == prev[j]);
                        }
                    }
                },
            }
        }
    }
}

/// Top-level files, in order: each one whose `href` is not yet a Link of the
/// list is appended as a new Link.
pub open spec fn add_files(items: Seq<ItemView>, files: Seq<FileView>) -> Seq<ItemView>
    decreases files.len(),
{
    if files.len() == 0 {
        items
    } else {
        let prev = add_files(items, files.drop_last());
        let f = files.last();
        let href = file_href(f.name);
        if has_link(prev, href) {
            prev
        } else {
            prev.push(ItemView::Link(new_link(f, href)))
        }
    }
}

/// The files of subdirectory `dir`, in order: each one whose `href` is not yet
/// among the entries is appended.
pub open spec fn add_links(entries: Seq<LinkView>, dir: Seq<char>, files: Seq<FileView>) -> Seq<
    LinkView,
>
    decreases files.len(),
{
    if files.len() == 0 {
        entries
    } else {
        let prev = add_links(entries, dir, files.drop_last());
        let f = files.last();
        let href = nested_href(dir, f.name);
        if has_entry(prev, href) {
            prev
        } else {
            prev.push(new_link(f, href))
        }
    }
}

/// One subdirectory: the folder of that name is extended in place, or a new
/// folder is appended when there is none.
pub open spec fn apply_dir(items: Seq<ItemView>, d: DirView) -> Seq<ItemView> {
    match folder_index(items, d.name) {
        Some(idx) => {
            let f = folder_of(items[idx]);
            items.update(
                idx,
                ItemView::Folder(
                    FolderView { entries: add_links(f.entries, d.name, d.files), ..f },
                ),
            )
        },
        None => items.push(
            ItemView::Folder(
                FolderView {
                    name: d.name,
                    last_modified: d.last_modified,
                    entries: add_links(seq![], d.name, d.files),
                },
            ),
        ),
    }
}

pub open spec fn add_dirs(items: Seq<ItemView>, dirs: Seq<DirView>) -> Seq<ItemView>
    decreases dirs.len(),
{
    if dirs.len() == 0 {
        items
    } else {
        apply_dir(add_dirs(items, dirs.drop_last()), dirs.last())
    }
}

/// What a merge returns: the existing items, then new top-level files, then
/// the subdirectories.
pub open spec fn merged(existing: Seq<ItemView>, files: Seq<FileView>, dirs: Seq<DirView>) -> Seq<
    ItemView,
> {
    add_dirs(add_files(existing, files), dirs)
}

fn contains_link(items: &Vec<BookmarkItem>, href: &String) -> (r: bool)
    ensures
        r == has_link(view_items(items@), href@),
{
    let ghost v = view_items(items@);
    let mut i: usize = 0;
    while i < items.len()
        invariant
            i <= items.len(),
            v == view_items(items@),
            forall|j: int| 0 <= j < i ==> !is_link_to(#[trigger] v[j], href@),
        decreases items.len() - i,
    {
        match &items[i] {
            BookmarkItem::Link(e) => {
                if e.href == *href {
                    assert(is_link_to(v[i as int], href@));
                    return true;
                }
            },
            BookmarkItem::Folder(_) => {},
        }
        i = i + 1;
    }
    false
}

fn contains_entry(entries: &Vec<BookmarkEntry>, href: &String) -> (r: bool)
    ensures
        r == has_entry(view_links(entries@), href@),
{
    let ghost v = view_links(entries@);
    let mut i: usize = 0;
    while i < entries.len()
        invariant
            i <= entries.len(),
            v == view_links(entries@),
            forall|j: int| 0 <= j < i ==> (#[trigger] v[j]).href != href@,
        decreases entries.len() - i,
    {
        if entries[i].href == *href {
            assert(v[i as int].href == href@);
            return true;
        }
        i = i + 1;
    }
    false
}

fn last_folder_index(items: &Vec<BookmarkItem>, name: &String) -> (r: Option<usize>)
    ensures
        match r {
            Some(i) => folder_index(view_items(items@), name@) == Some(i as int),
            None => folder_index(view_items(items@), name@) is None,
        },
{
    let ghost v = view_items(items@);
    let mut found: Option<usize> = None;
    let mut i: usize = 0;
    while i < items.len()
        invariant
            i <= items.len(),
            v == view_items(items@),
            match found {
                Some(k) => folder_index(v.subrange(0, i as int), name@) == Some(k as int),
                None => folder_index(v.subrange(0, i as int), name@) is None,
            },
        decreases items.len() - i,
    {
        assert(v.subrange(0, i + 1).drop_last() =~= v.subrange(0, i as int));
        match &items[i] {
            BookmarkItem::Folder(f) => {
                if f.name == *name {
                    found = Some(i);
                }
            },
            BookmarkItem::Link(_) => {},
        }
        i = i + 1;
    }
    assert(v.subrange(0, items.len() as int) =~= v);
    found
}

fn new_entry(f: &ScannedFile, href: String) -> (r: BookmarkEntry)
    ensures
        r@ == new_link(f@, href@),
{
    BookmarkEntry {
        name: f.name.clone(),
        href,
        add_date: f.add_date,
        last_modified: f.last_modified,
        description: None,
    }
}

/// Appends to a folder's entries the files of `dir` that it lacks.
fn extend_entries(entries: &mut Vec<BookmarkEntry>, dir: &ScannedDir)
    ensures
        view_links(final(entries)@) == add_links(view_links(old(entries)@), dir@.name, dir@.files),
{
    let ghost start = view_links(entries@);
    let ghost files = dir@.files;
    let mut j: usize = 0;
    while j < dir.files.len()
        invariant
            j <= dir.files.len(),
            files == dir@.files,
            files.len() == dir.files@.len(),
            view_links(entries@) == add_links(start, dir@.name, files.subrange(0, j as int)),
        decreases dir.files.len() - j,
    {
        let f = &dir.files[j];
        let mut segments: Vec<String> = Vec::new();
        segments.push(dir.name.clone());
        segments.push(f.name.clone());
        let href = encode_path_preserving_slashes(&segments);
        proof {
            let segs = segments@.map_values(|s: String| s@);
            assert(segs =~= seq![dir@.name, f@.name]);
            assert(files.subrange(0, j + 1).drop_last() =~= files.subrange(0, j as int));
            assert(files.subrange(0, j + 1).last() == f@);
        }
        if !contains_entry(entries, &href) {
            let e = new_entry(f, href);
            entries.push(e);
            assert(view_links(entries@) =~= add_links(start, dir@.name, files.subrange(0, j as int)).push(e@));
        }
        j = j + 1;
    }
    assert(files.subrange(0, dir.files.len() as int) =~= files);
}

/// Combines the items of an existing index with what a scan found.
///
/// Existing items keep their order, fields and captions. Each top-level file
/// whose percent-encoded name is not yet the `href` of a Link is appended as
/// a Link. Each subdirectory extends the folder of its name with the files
/// it lacks, or is appended as a new folder.
pub fn merge_bookmarks(
    existing: Vec<BookmarkItem>,
    files: &Vec<ScannedFile>,
    dirs: &Vec<ScannedDir>,
) -> (r: Vec<BookmarkItem>)
    ensures
        view_items(r@) == merged(view_items(existing@), view_files(files@), view_dirs(dirs@)),
{
    let ghost e0 = view_items(existing@);
    let ghost fs = view_files(files@);
    let ghost ds = view_dirs(dirs@);
    let mut items = existing;
    let mut i: usize = 0;
    while i < files.len()
        invariant
            i <= files.len(),
            fs == view_files(files@),
            view_items(items@) == add_files(e0, fs.subrange(0, i as int)),
        decreases files.len() - i,
    {
        let f = &files[i];
        let href = encode_name(&f.name);
        proof {
            assert(fs.subrange(0, i + 1).drop_last() =~= fs.subrange(0, i as int));
            assert(fs.subrange(0, i + 1).last() == f@);
        }
        if !contains_link(&items, &href) {
            let e = new_entry(f, href);
            items.push(BookmarkItem::Link(e));
            assert(view_items(items@) =~= add_files(e0, fs.subrange(0, i as int)).push(
                ItemView::Link(e@),
            ));
        }
        i = i + 1;
    }
    assert(fs.subrange(0, files.len() as int) =~= fs);
    let ghost after_files = view_items(items@);
    let mut k: usize = 0;
    while k < dirs.len()
        invariant
            k <= dirs.len(),
            ds == view_dirs(dirs@),
            view_items(items@) == add_dirs(after_files, ds.subrange(0, k as int)),
        decreases dirs.len() - k,
    {
        let d = &dirs[k];
        let ghost before = view_items(items@);
        proof {
            assert(ds.subrange(0, k + 1).drop_last() =~= ds.subrange(0, k as int));
            assert(ds.subrange(0, k + 1).last() == d@);
        }
        proof {
            lemma_folder_index(before, d@.name);
        }
        match last_folder_index(&items, &d.name) {
            Some(idx) => {
                let item = items.remove(idx);
                assert(item@ == before[idx as int]);
                match item {
                    BookmarkItem::Folder(mut folder) => {
                        extend_entries(&mut folder.entries, d);
                        let ghost fv = folder@;
                        items.insert(idx, BookmarkItem::Folder(folder));
                        assert(view_items(items@) =~= before.update(
                            idx as int,
                            ItemView::Folder(fv),
                        ));
                    },
                    BookmarkItem::Link(l) => {
                        // folder_index only points at folders
                        items.insert(idx, BookmarkItem::Link(l));
                        assert(view_items(items@) =~= before);
                    },
                }
            },
            None => {
                let mut entries: Vec<BookmarkEntry> = Vec::new();
                extend_entries(&mut entries, d);
                let folder = BookmarkFolder {
                    name: d.name.clone(),
                    last_modified: d.last_modified,
                    entries,
                };
                items.push(BookmarkItem::Folder(folder));
                assert(view_links(Seq::<BookmarkEntry>::empty()) =~= seq![]);
                assert(view_items(items@) =~= before.push(ItemView::Folder(folder@)));
            },
        }
        k = k + 1;
    }
    assert(ds.subrange(0, dirs.len() as int) =~= ds);
    items
}

} // verus!

verus! {

/// An existing item survives a merge: a Link unchanged, a folder with the same
/// name and stamp whose old entries are a prefix of its new ones.
pub open spec fn item_kept(before: ItemView, after: ItemView) -> bool {
    match before {
        ItemView::Link(l) => after == ItemView::Link(l),
        ItemView::Folder(f) => match after {
            ItemView::Folder(g) => {
                &&& g.name == f.name
                &&& g.last_modified == f.last_modified
                &&& f.entries.len() <= g.entries.len()
                &&& g.entries.subrange(0, f.entries.len() as int) == f.entries
            },
            ItemView::Link(_) => false,
        },
    }
}

pub open spec fn items_kept(before: Seq<ItemView>, after: Seq<ItemView>) -> bool {
    &&& before.len() <= after.len()
    &&& forall|i: int| 0 <= i < before.len() ==> item_kept(before[i], #[trigger] after[i])
}

/// Every file of `dir` has its link in the folder of that name.
pub open spec fn dir_covered(items: Seq<ItemView>, d: DirView) -> bool {
    match folder_index(items, d.name) {
        Some(idx) => forall|j: int|
            0 <= j < d.files.len() ==> has_entry(
                folder_of(items[idx]).entries,
                nested_href(d.name, (#[trigger] d.files[j]).name),
            ),
        None => false,
    }
}

pub open spec fn files_covered(items: Seq<ItemView>, files: Seq<FileView>) -> bool {
    forall|j: int| 0 <= j < files.len() ==> has_link(items, file_href((#[trigger] files[j]).name))
}

pub open spec fn dirs_covered(items: Seq<ItemView>, dirs: Seq<DirView>) -> bool {
    forall|j: int| 0 <= j < dirs.len() ==> dir_covered(items, #[trigger] dirs[j])
}

pub open spec fn link_href(item: ItemView) -> Option<Seq<char>> {
    match item {
        ItemView::Link(l) => Some(l.href),
        ItemView::Folder(_) => None,
    }
}

pub open spec fn folder_name(item: ItemView) -> Option<Seq<char>> {
    match item {
        ItemView::Link(_) => None,
        ItemView::Folder(f) => Some(f.name),
    }
}

pub open spec fn entries_unique(es: Seq<LinkView>) -> bool {
    forall|i: int, j: int|
        0 <= i < es.len() && 0 <= j < es.len() && (#[trigger] es[i]).href == (#[trigger] es[j]).href
            ==> i == j
}

/// No two Links of a list share an `href`, no two folders share a name, and
/// within each folder no two links share an `href`.
pub open spec fn list_unique(items: Seq<ItemView>) -> bool {
    &&& forall|i: int, j: int|
        0 <= i < items.len() && 0 <= j < items.len() && link_href(#[trigger] items[i]) is Some
            && link_href(items[i]) == link_href(#[trigger] items[j]) ==> i == j
    &&& forall|i: int, j: int|
        0 <= i < items.len() && 0 <= j < items.len() && folder_name(#[trigger] items[i]) is Some
            && folder_name(items[i]) == folder_name(#[trigger] items[j]) ==> i == j
    &&& forall|i: int|
        0 <= i < items.len() ==> entries_unique(folder_of(#[trigger] items[i]).entries)
}

proof fn lemma_add_links(entries: Seq<LinkView>, dir: Seq<char>, files: Seq<FileView>)
    ensures
        ({
            let r = add_links(entries, dir, files);
            &&& entries.len() <= r.len()
            &&& r.subrange(0, entries.len() as int) == entries
            &&& forall|j: int|
                0 <= j < files.len() ==> has_entry(r, nested_href(dir, (#[trigger] files[j]).name))
            &&& entries_unique(entries) ==> entries_unique(r)
            &&& (forall|j: int|
                0 <= j < files.len() ==> has_entry(
                    entries,
                    nested_href(dir, (#[trigger] files[j]).name),
                )) ==> r == entries
        }),
    decreases files.len(),
{
    if files.len() > 0 {
        let fs = files.drop_last();
        lemma_add_links(entries, dir, fs);
        let prev = add_links(entries, dir, fs);
        let r = add_links(entries, dir, files);
        let f = files.last();
        let href = nested_href(dir, f.name);
        if !has_entry(prev, href) {
            assert(r == prev.push(new_link(f, href)));
            assert(r.subrange(0, entries.len() as int) =~= prev.subrange(0, entries.len() as int));
            assert forall|j: int| 0 <= j < files.len() implies has_entry(
                r,
                nested_href(dir, (#[trigger] files[j]).name),
            ) by {
                if j < fs.len() {
                    assert(files[j] == fs[j]);
                    let k = choose|k: int|
                        0 <= k < prev.len() && #[trigger] prev[k].href == nested_href(
                            dir,
                            fs[j].name,
                        );
                    assert(r[k] == prev[k]);
                } else {
                    assert(r[prev.len() as int].href == href);
                }
            }
            if entries_unique(entries) {
                assert forall|a: int, b: int|
                    0 <= a < r.len() && 0 <= b < r.len() && (#[trigger] r[a]).href == (
                    #[trigger] r[b]).href implies a == b by {
                    if a < prev.len() && b < prev.len() {
                        assert(r[a] == prev[a] && r[b] == prev[b]);
                    } else if a < prev.len() {
                        assert(r[a] == prev[a]);
                    } else if b < prev.len() {
                        assert(r[b] == prev[b]);
                    }
                }
            }
            if forall|j: int|
                0 <= j < files.len() ==> has_entry(
                    entries,
                    nested_href(dir, (#[trigger] files[j]).name),
                ) {
                assert(forall|j: int|
                    0 <= j < fs.len() ==> has_entry(
                        entries,
                        nested_href(dir, (#[trigger] fs[j]).name),
                    )) by {
                    assert forall|j: int| 0 <= j < fs.len() implies has_entry(
                        entries,
                        nested_href(dir, (#[trigger] fs[j]).name),
                    ) by {
                        assert(files[j] == fs[j]);
                    }
                }
                assert(has_entry(entries, nested_href(dir, files[files.len() - 1].name)));
            }
        } else {
            assert forall|j: int| 0 <= j < files.len() implies has_entry(
                r,
                nested_href(dir, (#[trigger] files[j]).name),
            ) by {
                if j < fs.len() {
                    assert(files[j] == fs[j]);
                }
            }
            if forall|j: int|
                0 <= j < files.len() ==> has_entry(
                    entries,
                    nested_href(dir, (#[trigger] files[j]).name),
                ) {
                assert forall|j: int| 0 <= j < fs.len() implies has_entry(
                    entries,
                    nested_href(dir, (#[trigger] fs[j]).name),
                ) by {
                    assert(files[j] == fs[j]);
                }
            }
        }
    } else {
        assert(entries.subrange(0, entries.len() as int) =~= entries);
    }
}

proof fn lemma_add_files(items: Seq<ItemView>, files: Seq<FileView>)
    ensures
        ({
            let r = add_files(items, files);
            &&& items.len() <= r.len()
            &&& r.subrange(0, items.len() as int) == items
            &&& forall|i: int| items.len() <= i < r.len() ==> (#[trigger] r[i]) is Link
            &&& files_covered(r, files)
            &&& list_unique(items) ==> list_unique(r)
            &&& files_covered(items, files) ==> r == items
        }),
    decreases files.len(),
{
    let r = add_files(items, files);
    if files.len() > 0 {
        let fs = files.drop_last();
        lemma_add_files(items, fs);
        let prev = add_files(items, fs);
        let f = files.last();
        let href = file_href(f.name);
        assert forall|j: int| 0 <= j < fs.len() implies files[j] == fs[j] by {}
        if !has_link(prev, href) {
            let link = ItemView::Link(new_link(f, href));
            assert(r == prev.push(link));
            assert(r.subrange(0, items.len() as int) =~= prev.subrange(0, items.len() as int));
            assert forall|i: int| items.len() <= i < r.len() implies (#[trigger] r[i]) is Link by {
                if i < prev.len() {
                    assert(r[i] == prev[i]);
                }
            }
            assert forall|j: int| 0 <= j < files.len() implies has_link(
                r,
                file_href((#[trigger] files[j]).name),
            ) by {
                if j < fs.len() {
                    assert(files[j] == fs[j]);
                    let k = choose|k: int|
                        0 <= k < prev.len() && #[trigger] is_link_to(
                            prev[k],
                            file_href(fs[j].name),
                        );
                    assert(r[k] == prev[k]);
                } else {
                    assert(is_link_to(r[prev.len() as int], href));
                }
            }
            if list_unique(items) {
                assert forall|a: int, b: int|
                    0 <= a < r.len() && 0 <= b < r.len() && link_href(#[trigger] r[a]) is Some
                        && link_href(r[a]) == link_href(#[trigger] r[b]) implies a == b by {
                    if a < prev.len() {
                        assert(r[a] == prev[a]);
                    }
                    if b < prev.len() {
                        assert(r[b] == prev[b]);
                    }
                    if a < prev.len() && b == prev.len() {
                        assert(is_link_to(prev[a], href));
                    }
                    if b < prev.len() && a == prev.len() {
                        assert(is_link_to(prev[b], href));
                    }
                }
                assert forall|a: int, b: int|
                    0 <= a < r.len() && 0 <= b < r.len() && folder_name(#[trigger] r[a]) is Some
                        && folder_name(r[a]) == folder_name(#[trigger] r[b]) implies a == b by {
                    if a < prev.len() {
                        assert(r[a] == prev[a]);
                    }
                    if b < prev.len() {
                        assert(r[b] == prev[b]);
                    }
                }
                assert forall|a: int| 0 <= a < r.len() implies entries_unique(
                    folder_of(#[trigger] r[a]).entries,
                ) by {
                    if a < prev.len() {
                        assert(r[a] == prev[a]);
                    }
                }
            }
            if files_covered(items, files) {
                assert(files_covered(items, fs));
                assert(has_link(items, href));
                let k = choose|k: int| 0 <= k < items.len() && #[trigger] is_link_to(items[k], href);
                assert(prev[k] == items[k]);
            }
        } else {
            assert forall|j: int| 0 <= j < files.len() implies has_link(
                r,
                file_href((#[trigger] files[j]).name),
            ) by {
                if j < fs.len() {
                    assert(files[j] == fs[j]);
                }
            }
            if files_covered(items, files) {
                assert(files_covered(items, fs));
            }
        }
    } else {
        assert(items.subrange(0, items.len() as int) =~= items);
    }
}

} // verus!

verus! {

proof fn lemma_item_kept_refl(item: ItemView)
    ensures
        item_kept(item, item),
{
    match item {
        ItemView::Folder(f) => {
            assert(f.entries.subrange(0, f.entries.len() as int) =~= f.entries);
        },
        ItemView::Link(_) => {},
    }
}

proof fn lemma_has_entry_prefix(a: Seq<LinkView>, b: Seq<LinkView>, href: Seq<char>)
    requires
        a.len() <= b.len(),
        b.subrange(0, a.len() as int) == a,
        has_entry(a, href),
    ensures
        has_entry(b, href),
{
    let k = choose|k: int| 0 <= k < a.len() && #[trigger] a[k].href == href;
    assert(b.subrange(0, a.len() as int)[k] == b[k]);
}

proof fn lemma_kept_has_link(a: Seq<ItemView>, b: Seq<ItemView>, href: Seq<char>)
    requires
        items_kept(a, b),
        has_link(a, href),
    ensures
        has_link(b, href),
{
    let k = choose|k: int| 0 <= k < a.len() && #[trigger] is_link_to(a[k], href);
    assert(item_kept(a[k], b[k]));
}

proof fn lemma_kept_trans(a: Seq<ItemView>, b: Seq<ItemView>, c: Seq<ItemView>)
    requires
        items_kept(a, b),
        items_kept(b, c),
    ensures
        items_kept(a, c),
{
    assert forall|i: int| 0 <= i < a.len() implies item_kept(a[i], #[trigger] c[i]) by {
        assert(item_kept(a[i], b[i]));
        assert(item_kept(b[i], c[i]));
        match a[i] {
            ItemView::Folder(f) => {
                let g = folder_of(b[i]);
                let h = folder_of(c[i]);
                assert(h.entries.subrange(0, f.entries.len() as int) =~= h.entries.subrange(
                    0,
                    g.entries.len() as int,
                ).subrange(0, f.entries.len() as int));
            },
            ItemView::Link(_) => {},
        }
    }
}

proof fn lemma_folder_index_frame(a: Seq<ItemView>, b: Seq<ItemView>, name: Seq<char>)
    requires
        a.len() <= b.len(),
        forall|i: int|
            0 <= i < a.len() ==> is_folder_named(a[i], name) == is_folder_named(
                #[trigger] b[i],
                name,
            ),
        forall|i: int| a.len() <= i < b.len() ==> !is_folder_named(#[trigger] b[i], name),
    ensures
        folder_index(a, name) == folder_index(b, name),
{
    lemma_folder_index(a, name);
    lemma_folder_index(b, name);
    match folder_index(a, name) {
        Some(i) => {
            assert(is_folder_named(b[i], name));
            match folder_index(b, name) {
                Some(k) => {
                    if k < i {
                        assert(!is_folder_named(b[i], name));
                    }
                    if k > i {
                        assert(is_folder_named(a[k], name));
                    }
                },
                None => {},
            }
        },
        None => {
            match folder_index(b, name) {
                Some(k) => {
                    if k < a.len() {
                        assert(is_folder_named(a[k], name));
                    }
                },
                None => {},
            }
        },
    }
}

proof fn lemma_kept_folder_index(a: Seq<ItemView>, b: Seq<ItemView>, name: Seq<char>)
    requires
        items_kept(a, b),
        forall|i: int| a.len() <= i < b.len() ==> !is_folder_named(#[trigger] b[i], name),
    ensures
        folder_index(a, name) == folder_index(b, name),
{
    assert forall|i: int| 0 <= i < a.len() implies is_folder_named(a[i], name) == is_folder_named(
        #[trigger] b[i],
        name,
    ) by {
        assert(item_kept(a[i], b[i]));
    }
    lemma_folder_index_frame(a, b, name);
}

proof fn lemma_kept_dir_covered(a: Seq<ItemView>, b: Seq<ItemView>, d: DirView)
    requires
        items_kept(a, b),
        dir_covered(a, d),
        folder_index(a, d.name) == folder_index(b, d.name),
    ensures
        dir_covered(b, d),
{
    let idx = folder_index(a, d.name)->0;
    lemma_folder_index(a, d.name);
    assert(item_kept(a[idx], b[idx]));
    let fa = folder_of(a[idx]);
    let fb = folder_of(b[idx]);
    assert forall|j: int| 0 <= j < d.files.len() implies has_entry(
        fb.entries,
        nested_href(d.name, (#[trigger] d.files[j]).name),
    ) by {
        assert(has_entry(fa.entries, nested_href(d.name, d.files[j].name)));
        lemma_has_entry_prefix(fa.entries, fb.entries, nested_href(d.name, d.files[j].name));
    }
}

proof fn lemma_apply_dir(items: Seq<ItemView>, d: DirView)
    ensures
        ({
            let r = apply_dir(items, d);
            &&& items_kept(items, r)
            &&& dir_covered(r, d)
            &&& folder_index(items, d.name) is Some ==> folder_index(r, d.name) == folder_index(
                items,
                d.name,
            )
            &&& forall|i: int| items.len() <= i < r.len() ==> is_folder_named(#[trigger] r[i], d.name)
            &&& list_unique(items) ==> list_unique(r)
            &&& dir_covered(items, d) ==> r == items
        }),
{
    let r = apply_dir(items, d);
    lemma_folder_index(items, d.name);
    match folder_index(items, d.name) {
        Some(idx) => {
            let f = folder_of(items[idx]);
            let entries = add_links(f.entries, d.name, d.files);
            lemma_add_links(f.entries, d.name, d.files);
            assert(r == items.update(idx, ItemView::Folder(FolderView { entries, ..f })));
            assert(items_kept(items, r)) by {
                assert forall|i: int| 0 <= i < items.len() implies item_kept(
                    items[i],
                    #[trigger] r[i],
                ) by {
                    if i == idx {
                        assert(items[i] == ItemView::Folder(f));
                    } else {
                        lemma_item_kept_refl(items[i]);
                    }
                }
            }
            lemma_kept_folder_index(items, r, d.name);
            if list_unique(items) {
                assert forall|a: int, b: int|
                    0 <= a < r.len() && 0 <= b < r.len() && link_href(#[trigger] r[a]) is Some
                        && link_href(r[a]) == link_href(#[trigger] r[b]) implies a == b by {
                    assert(item_kept(items[a], r[a]));
                    assert(item_kept(items[b], r[b]));
                }
                assert forall|a: int, b: int|
                    0 <= a < r.len() && 0 <= b < r.len() && folder_name(#[trigger] r[a]) is Some
                        && folder_name(r[a]) == folder_name(#[trigger] r[b]) implies a == b by {
                    assert(item_kept(items[a], r[a]));
                    assert(item_kept(items[b], r[b]));
                }
                assert forall|a: int| 0 <= a < r.len() implies entries_unique(
                    folder_of(#[trigger] r[a]).entries,
                ) by {
                    if a != idx {
                        assert(r[a] == items[a]);
                    } else {
                        assert(entries_unique(folder_of(items[idx]).entries));
                    }
                }
            }
            if dir_covered(items, d) {
                assert(entries == f.entries);
                assert(items[idx] == ItemView::Folder(f));
                assert(r =~= items);
            }
        },
        None => {
            let entries = add_links(seq![], d.name, d.files);
            lemma_add_links(seq![], d.name, d.files);
            let nf = ItemView::Folder(
                FolderView { name: d.name, last_modified: d.last_modified, entries },
            );
            assert(r == items.push(nf));
            assert(items_kept(items, r)) by {
                assert forall|i: int| 0 <= i < items.len() implies item_kept(
                    items[i],
                    #[trigger] r[i],
                ) by {
                    assert(r[i] == items[i]);
                    lemma_item_kept_refl(items[i]);
                }
            }
            lemma_folder_index(r, d.name);
            assert(folder_index(r, d.name) == Some(items.len() as int));
            if list_unique(items) {
                assert forall|a: int, b: int|
                    0 <= a < r.len() && 0 <= b < r.len() && link_href(#[trigger] r[a]) is Some
                        && link_href(r[a]) == link_href(#[trigger] r[b]) implies a == b by {
                    if a < items.len() {
                        assert(r[a] == items[a]);
                    }
                    if b < items.len() {
                        assert(r[b] == items[b]);
                    }
                }
                assert forall|a: int, b: int|
                    0 <= a < r.len() && 0 <= b < r.len() && folder_name(#[trigger] r[a]) is Some
                        && folder_name(r[a]) == folder_name(#[trigger] r[b]) implies a == b by {
                    if a < items.len() {
                        assert(r[a] == items[a]);
                        if b == items.len() {
                            assert(is_folder_named(items[a], d.name));
                        }
                    }
                    if b < items.len() {
                        assert(r[b] == items[b]);
                        if a == items.len() {
                            assert(is_folder_named(items[b], d.name));
                        }
                    }
                }
                assert(entries_unique(Seq::<LinkView>::empty()));
                assert forall|a: int| 0 <= a < r.len() implies entries_unique(
                    folder_of(#[trigger] r[a]).entries,
                ) by {
                    if a < items.len() {
                        assert(r[a] == items[a]);
                    }
                }
            }
        },
    }
}

proof fn lemma_add_dirs(items: Seq<ItemView>, dirs: Seq<DirView>)
    ensures
        ({
            let r = add_dirs(items, dirs);
            &&& items_kept(items, r)
            &&& dirs_covered(r, dirs)
            &&& list_unique(items) ==> list_unique(r)
            &&& dirs_covered(items, dirs) ==> r == items
        }),
    decreases dirs.len(),
{
    let r = add_dirs(items, dirs);
    if dirs.len() == 0 {
        assert(items_kept(items, r)) by {
            assert forall|i: int| 0 <= i < items.len() implies item_kept(
                items[i],
                #[trigger] r[i],
            ) by {
                match items[i] {
                    ItemView::Folder(f) => {
                        assert(f.entries.subrange(0, f.entries.len() as int) =~= f.entries);
                    },
                    ItemView::Link(_) => {},
                }
            }
        }
    } else {
        let ds = dirs.drop_last();
        let d = dirs.last();
        lemma_add_dirs(items, ds);
        let prev = add_dirs(items, ds);
        lemma_apply_dir(prev, d);
        lemma_kept_trans(items, prev, r);
        assert forall|j: int| 0 <= j < dirs.len() implies dir_covered(r, #[trigger] dirs[j]) by {
            if j < ds.len() {
                let e = ds[j];
                assert(dirs[j] == e);
                assert(dir_covered(prev, e));
                if e.name != d.name {
                    lemma_kept_folder_index(prev, r, e.name);
                }
                lemma_kept_dir_covered(prev, r, e);
            }
        }
        if dirs_covered(items, dirs) {
            assert forall|j: int| 0 <= j < ds.len() implies dir_covered(items, #[trigger] ds[j]) by {
                assert(dirs[j] == ds[j]);
            }
            assert(dir_covered(items, dirs[dirs.len() - 1]));
        }
    }
}

/// Merging keeps every existing item unchanged in its place (a folder may
/// gain entries after its old ones), and every scanned file and subdirectory
/// is in the result: each top-level file as a Link, each subdirectory as a
/// folder that holds a Link for each of its files.
pub proof fn merge_is_non_destructive(
    existing: Seq<ItemView>,
    files: Seq<FileView>,
    dirs: Seq<DirView>,
)
    ensures
        items_kept(existing, merged(existing, files, dirs)),
        files_covered(merged(existing, files, dirs), files),
        dirs_covered(merged(existing, files, dirs), dirs),
{
    let a = add_files(existing, files);
    lemma_add_files(existing, files);
    lemma_add_dirs(a, dirs);
    assert(items_kept(existing, a)) by {
        assert forall|i: int| 0 <= i < existing.len() implies item_kept(
            existing[i],
            #[trigger] a[i],
        ) by {
            assert(a.subrange(0, existing.len() as int)[i] == a[i]);
            match existing[i] {
                ItemView::Folder(f) => {
                    assert(f.entries.subrange(0, f.entries.len() as int) =~= f.entries);
                },
                ItemView::Link(_) => {},
            }
        }
    }
    lemma_kept_trans(existing, a, merged(existing, files, dirs));
    assert forall|j: int| 0 <= j < files.len() implies has_link(
        merged(existing, files, dirs),
        file_href((#[trigger] files[j]).name),
    ) by {
        lemma_kept_has_link(a, merged(existing, files, dirs), file_href(files[j].name));
    }
}

/// A merge keeps a list free of duplicates: no two Links share an `href`, no
/// two folders share a name, no two links of one folder share an `href`.
pub proof fn merge_preserves_uniqueness(
    existing: Seq<ItemView>,
    files: Seq<FileView>,
    dirs: Seq<DirView>,
)
    requires
        list_unique(existing),
    ensures
        list_unique(merged(existing, files, dirs)),
{
    lemma_add_files(existing, files);
    lemma_add_dirs(add_files(existing, files), dirs);
}

/// Merging the result of a merge with the same scan changes nothing.
pub proof fn merge_is_stable(existing: Seq<ItemView>, files: Seq<FileView>, dirs: Seq<DirView>)
    ensures
        merged(merged(existing, files, dirs), files, dirs) == merged(existing, files, dirs),
{
    let m = merged(existing, files, dirs);
    merge_is_non_destructive(existing, files, dirs);
    lemma_add_files(m, files);
    lemma_add_dirs(m, dirs);
}

} // verus!
