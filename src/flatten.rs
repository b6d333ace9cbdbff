//! Flattening an item list into the files it links, folders inlined.

use vstd::prelude::*;
use crate::model::{
    copy_opt_string, view_items, view_records, BookmarkFile, BookmarkItem, FileRecordView,
    ItemView, LinkView,
};

verus! {

pub open spec fn record_of(l: LinkView) -> FileRecordView {
    FileRecordView { href: l.href, name: l.name, caption: l.description }
}

pub open spec fn item_records(item: ItemView) -> Seq<FileRecordView> {
    match item {
        ItemView::Link(l) => seq![record_of(l)],
        ItemView::Folder(f) => f.entries.map_values(|l: LinkView| record_of(l)),
    }
}

/// Every link of the list in order, a folder's links where the folder stands.
pub open spec fn flattened(items: Seq<ItemView>) -> Seq<FileRecordView>
    decreases items.len(),
{
    if items.len() == 0 {
        Seq::<FileRecordView>::empty()
    } else {
        flattened(items.drop_last()) + item_records(items.last())
    }
}

/// Lists the linked files of an item list, recursing into folders: each
/// with its `href`, its name and its caption.
pub fn extract_bookmark_files(items: &[BookmarkItem]) -> (r: Vec<BookmarkFile>)
    ensures
        view_records(r@) == flattened(view_items(items@)),
{
    let ghost its = view_items(items@);
    let mut files: Vec<BookmarkFile> = Vec::new();
    let mut i: usize = 0;
    assert(view_records(files@) =~= flattened(its.subrange(0, 0)));
    while i < items.len()
        invariant
            i <= items@.len(),
            its == view_items(items@),
            view_records(files@) == flattened(its.subrange(0, i as int)),
        decreases items.len() - i,
    {
        let ghost before = view_records(files@);
        assert(its.subrange(0, i + 1).drop_last() =~= its.subrange(0, i as int));
        assert(its.subrange(0, i + 1).last() == items@[i as int]@);
        match &items[i] {
            BookmarkItem::Link(e) => {
                let f = BookmarkFile {
                    href: e.href.clone(),
                    name: e.name.clone(),
                    caption: copy_opt_string(&e.description),
                };
                files.push(f);
                assert(view_records(files@) =~= before + seq![record_of(e@)]);
            },
            BookmarkItem::Folder(folder) => {
                let ghost recs = item_records(items@[i as int]@);
                let mut j: usize = 0;
                while j < folder.entries.len()
                    invariant
                        j <= folder.entries@.len(),
                        recs == item_records(ItemView::Folder(folder@)),
                        view_records(files@) == before + recs.subrange(0, j as int),
                    decreases folder.entries.len() - j,
                {
                    let e = &folder.entries[j];
                    let f = BookmarkFile {
                        href: e.href.clone(),
                        name: e.name.clone(),
                        caption: copy_opt_string(&e.description),
                    };
                    let ghost prev = view_records(files@);
                    files.push(f);
                    assert(recs[j as int] == record_of(e@));
                    assert(view_records(files@) =~= prev.push(record_of(e@)));
                    assert(recs.subrange(0, j + 1) =~= recs.subrange(0, j as int).push(recs[j as int]));
                    j = j + 1;
                }
                assert(recs.subrange(0, folder.entries@.len() as int) =~= recs);
            },
        }
        i = i + 1;
    }
    assert(its.subrange(0, items@.len() as int) =~= its);
    files
}

} // verus!
