//! A merge written out and read back merges to itself: running the tool
//! twice on an unchanged folder leaves its index as it was.

use vstd::prelude::*;
use crate::encode::{href_safe, lemma_encoded_pair, lemma_percent_encoded};
use crate::layout::parse_inverts_render;
use crate::merge::{
    add_dirs, add_files, add_links, apply_dir, file_href, folder_index, folder_of,
    lemma_folder_index, merge_is_stable, merged, nested_href, new_link,
};
use crate::model::{DirView, FileView, ItemView, LinkView};
use crate::parser::{href_ok, parsed};
use crate::render::rendered;
use crate::roundtrip::{item_renderable, items_renderable, link_renderable, no_char};

verus! {

/// A name the format can carry: non-empty, without `<` or newline.
pub open spec fn name_renderable(n: Seq<char>) -> bool {
    n.len() > 0 && no_char(n, '<') && no_char(n, '\n')
}

pub open spec fn files_renderable(files: Seq<FileView>) -> bool {
    forall|k: int| 0 <= k < files.len() ==> name_renderable(#[trigger] files[k].name)
}

pub open spec fn dir_renderable(d: DirView) -> bool {
    name_renderable(d.name) && files_renderable(d.files)
}

/// Every scanned name is one the format can carry.
pub open spec fn scan_renderable(files: Seq<FileView>, dirs: Seq<DirView>) -> bool {
    &&& files_renderable(files)
    &&& forall|k: int| 0 <= k < dirs.len() ==> dir_renderable(#[trigger] dirs[k])
}

proof fn lemma_new_link(f: FileView, href: Seq<char>)
    requires
        name_renderable(f.name),
        href.len() > 0,
        forall|k: int| 0 <= k < href.len() ==> href_safe(#[trigger] href[k]),
    ensures
        link_renderable(new_link(f, href)),
{
    assert(href_ok(href));
}

proof fn lemma_add_files_renderable(items: Seq<ItemView>, files: Seq<FileView>)
    requires
        items_renderable(items),
        files_renderable(files),
    ensures
        items_renderable(add_files(items, files)),
    decreases files.len(),
{
    if files.len() > 0 {
        let fs = files.drop_last();
        assert forall|k: int| 0 <= k < fs.len() implies name_renderable(#[trigger] fs[k].name) by {
            assert(fs[k] == files[k]);
        }
        lemma_add_files_renderable(items, fs);
        let prev = add_files(items, fs);
        let f = files.last();
        assert(name_renderable(files[files.len() - 1].name));
        lemma_percent_encoded(f.name);
        lemma_new_link(f, file_href(f.name));
        let r = add_files(items, files);
        assert forall|k: int| 0 <= k < r.len() implies item_renderable(#[trigger] r[k]) by {
            if k < prev.len() {
                assert(r[k] == prev[k]);
            }
        }
    }
}

proof fn lemma_add_links_renderable(entries: Seq<LinkView>, dir: Seq<char>, files: Seq<FileView>)
    requires
        forall|k: int| 0 <= k < entries.len() ==> link_renderable(#[trigger] entries[k]),
        files_renderable(files),
    ensures
        forall|k: int|
            0 <= k < add_links(entries, dir, files).len() ==> link_renderable(
                #[trigger] add_links(entries, dir, files)[k],
            ),
    decreases files.len(),
{
    if files.len() > 0 {
        let fs = files.drop_last();
        assert forall|k: int| 0 <= k < fs.len() implies name_renderable(#[trigger] fs[k].name) by {
            assert(fs[k] == files[k]);
        }
        lemma_add_links_renderable(entries, dir, fs);
        let prev = add_links(entries, dir, fs);
        let f = files.last();
        assert(name_renderable(files[files.len() - 1].name));
        lemma_encoded_pair(seq![dir, f.name]);
        lemma_new_link(f, nested_href(dir, f.name));
        let r = add_links(entries, dir, files);
        assert forall|k: int| 0 <= k < r.len() implies link_renderable(#[trigger] r[k]) by {
            if k < prev.len() {
                assert(r[k] == prev[k]);
            }
        }
    }
}

proof fn lemma_apply_dir_renderable(items: Seq<ItemView>, d: DirView)
    requires
        items_renderable(items),
        dir_renderable(d),
    ensures
        items_renderable(apply_dir(items, d)),
{
    let r = apply_dir(items, d);
    lemma_folder_index(items, d.name);
    match folder_index(items, d.name) {
        Some(idx) => {
            let f = folder_of(items[idx]);
            assert(item_renderable(items[idx]));
            lemma_add_links_renderable(f.entries, d.name, d.files);
            assert forall|k: int| 0 <= k < r.len() implies item_renderable(#[trigger] r[k]) by {
                if k != idx {
                    assert(r[k] == items[k]);
                }
            }
        },
        None => {
            lemma_add_links_renderable(seq![], d.name, d.files);
            assert forall|k: int| 0 <= k < r.len() implies item_renderable(#[trigger] r[k]) by {
                if k < items.len() {
                    assert(r[k] == items[k]);
                }
            }
        },
    }
}

proof fn lemma_add_dirs_renderable(items: Seq<ItemView>, dirs: Seq<DirView>)
    requires
        items_renderable(items),
        forall|k: int| 0 <= k < dirs.len() ==> dir_renderable(#[trigger] dirs[k]),
    ensures
        items_renderable(add_dirs(items, dirs)),
    decreases dirs.len(),
{
    if dirs.len() > 0 {
        let ds = dirs.drop_last();
        assert forall|k: int| 0 <= k < ds.len() implies dir_renderable(#[trigger] ds[k]) by {
            assert(ds[k] == dirs[k]);
        }
        lemma_add_dirs_renderable(items, ds);
        assert(dir_renderable(dirs[dirs.len() - 1]));
        lemma_apply_dir_renderable(add_dirs(items, ds), dirs.last());
    }
}

/// Merging keeps a list one the format can carry, when every scanned name is.
pub proof fn merge_keeps_renderable(
    existing: Seq<ItemView>,
    files: Seq<FileView>,
    dirs: Seq<DirView>,
)
    requires
        items_renderable(existing),
        scan_renderable(files, dirs),
    ensures
        items_renderable(merged(existing, files, dirs)),
{
    lemma_add_files_renderable(existing, files);
    lemma_add_dirs_renderable(add_files(existing, files), dirs);
}

/// Merging a second time, against the rendered and re-read output of the
/// first merge and the same scan, gives the first merge's items again.
pub proof fn merge_is_idempotent(
    title: Seq<char>,
    existing: Seq<ItemView>,
    files: Seq<FileView>,
    dirs: Seq<DirView>,
)
    requires
        no_char(title, '<'),
        items_renderable(existing),
        scan_renderable(files, dirs),
    ensures
        merged(parsed(rendered(title, merged(existing, files, dirs))), files, dirs) == merged(
            existing,
            files,
            dirs,
        ),
{
    merge_keeps_renderable(existing, files, dirs);
    parse_inverts_render(title, merged(existing, files, dirs));
    merge_is_stable(existing, files, dirs);
}

/// What a merge produces reads back unchanged from its rendering.
pub proof fn merged_items_round_trip(
    title: Seq<char>,
    existing: Seq<ItemView>,
    files: Seq<FileView>,
    dirs: Seq<DirView>,
)
    requires
        no_char(title, '<'),
        items_renderable(existing),
        scan_renderable(files, dirs),
    ensures
        parsed(rendered(title, merged(existing, files, dirs))) == merged(existing, files, dirs),
{
    merge_keeps_renderable(existing, files, dirs);
    parse_inverts_render(title, merged(existing, files, dirs));
}

} // verus!
