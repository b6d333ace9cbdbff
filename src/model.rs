//! The bookmark data model and its mathematical views.

use vstd::prelude::*;

verus! {

/// A single bookmarked file reference.
#[derive(Clone, Debug, PartialEq, Eq)]
pub struct BookmarkEntry {
    pub name: String,
    pub href: String,
    pub add_date: u64,
    pub last_modified: u64,
    pub description: Option<String>,
}

/// A named group of links. The format nests one level only, so a folder
/// holds links and never another folder.
#[derive(Clone, Debug, PartialEq, Eq)]
pub struct BookmarkFolder {
    pub name: String,
    pub last_modified: u64,
    pub entries: Vec<BookmarkEntry>,
}

#[derive(Clone, Debug, PartialEq, Eq)]
pub enum BookmarkItem {
    Link(BookmarkEntry),
    Folder(BookmarkFolder),
}

/// A link flattened out of the item tree: what the album pipeline copies.
#[derive(Clone, Debug, PartialEq, Eq)]
pub struct BookmarkFile {
    pub href: String,
    pub name: String,
    pub caption: Option<String>,
}

/// A file found by the scanner, with its timestamps in Unix seconds.
#[derive(Clone, Debug, PartialEq, Eq)]
pub struct ScannedFile {
    pub name: String,
    pub add_date: u64,
    pub last_modified: u64,
}

/// A subdirectory found by the scanner, with the files directly inside it.
#[derive(Clone, Debug, PartialEq, Eq)]
pub struct ScannedDir {
    pub name: String,
    pub last_modified: u64,
    pub files: Vec<ScannedFile>,
}

pub struct LinkView {
    pub name: Seq<char>,
    pub href: Seq<char>,
    pub add_date: u64,
    pub last_modified: u64,
    pub description: Option<Seq<char>>,
}

pub struct FolderView {
    pub name: Seq<char>,
    pub last_modified: u64,
    pub entries: Seq<LinkView>,
}

pub enum ItemView {
    Link(LinkView),
    Folder(FolderView),
}

pub struct FileView {
    pub name: Seq<char>,
    pub add_date: u64,
    pub last_modified: u64,
}

pub struct DirView {
    pub name: Seq<char>,
    pub last_modified: u64,
    pub files: Seq<FileView>,
}

pub open spec fn opt_view(o: Option<String>) -> Option<Seq<char>> {
    match o {
        Some(s) => Some(s@),
        None => None,
    }
}

impl View for BookmarkEntry {
    type V = LinkView;

    open spec fn view(&self) -> LinkView {
        LinkView {
            name: self.name@,
            href: self.href@,
            add_date: self.add_date,
            last_modified: self.last_modified,
            description: opt_view(self.description),
        }
    }
}

pub open spec fn view_links(v: Seq<BookmarkEntry>) -> Seq<LinkView> {
    v.map_values(|e: BookmarkEntry| e@)
}

impl View for BookmarkFolder {
    type V = FolderView;

    open spec fn view(&self) -> FolderView {
        FolderView {
            name: self.name@,
            last_modified: self.last_modified,
            entries: view_links(self.entries@),
        }
    }
}

impl View for BookmarkItem {
    type V = ItemView;

    open spec fn view(&self) -> ItemView {
        match self {
            BookmarkItem::Link(e) => ItemView::Link(e@),
            BookmarkItem::Folder(f) => ItemView::Folder(f@),
        }
    }
}

pub open spec fn view_items(v: Seq<BookmarkItem>) -> Seq<ItemView> {
    v.map_values(|i: BookmarkItem| i@)
}

pub struct FileRecordView {
    pub href: Seq<char>,
    pub name: Seq<char>,
    pub caption: Option<Seq<char>>,
}

impl View for BookmarkFile {
    type V = FileRecordView;

    open spec fn view(&self) -> FileRecordView {
        FileRecordView { href: self.href@, name: self.name@, caption: opt_view(self.caption) }
    }
}

pub open spec fn view_records(v: Seq<BookmarkFile>) -> Seq<FileRecordView> {
    v.map_values(|f: BookmarkFile| f@)
}

impl View for ScannedFile {
    type V = FileView;

    open spec fn view(&self) -> FileView {
        FileView { name: self.name@, add_date: self.add_date, last_modified: self.last_modified }
    }
}

pub open spec fn view_files(v: Seq<ScannedFile>) -> Seq<FileView> {
    v.map_values(|f: ScannedFile| f@)
}

impl View for ScannedDir {
    type V = DirView;

    open spec fn view(&self) -> DirView {
        DirView { name: self.name@, last_modified: self.last_modified, files: view_files(self.files@) }
    }
}

pub open spec fn view_dirs(v: Seq<ScannedDir>) -> Seq<DirView> {
    v.map_values(|d: ScannedDir| d@)
}

/// An exact copy of an optional string, with its view.
pub fn copy_opt_string(s: &Option<String>) -> (r: Option<String>)
    ensures
        opt_view(r) == opt_view(*s),
{
    match s {
        Some(t) => Some(t.clone()),
        None => None,
    }
}

} // verus!
