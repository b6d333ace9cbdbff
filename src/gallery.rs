//! The album index: for each bookmarked file, its name in the album, its
//! size, its caption, and the name and size of each resized copy.

use vstd::prelude::*;
use std::path::Path;
use crate::album::{view_sizes, ImageSize, ImageSizeView};
use crate::model::{copy_opt_string, opt_view, BookmarkFile};
use crate::roundtrip::no_char;
use crate::scan::view_names;

verus! {

/// What urlencoding::decode gives for a text: the decoded text, or `None`
/// when the decoded bytes are not UTF-8.
pub uninterp spec fn url_decoded(s: Seq<char>) -> Option<Seq<char>>;

/// Relies on urlencoding::decode: its result depends on the text alone, and
/// a text without `%` comes back unchanged.
#[verifier::external_body]
fn url_decode(s: &str) -> (r: Option<String>)
    ensures
        opt_view(r) == url_decoded(s@),
        no_char(s@, '%') ==> opt_view(r) == Some(s@),
{
    urlencoding::decode(s).ok().map(|c| c.into_owned())
}

/// A name that is one whole path component on every platform: non-empty,
/// neither `.` nor `..`, without `/`, `\\` or `:`.
pub open spec fn plain_name(n: Seq<char>) -> bool {
    &&& n.len() > 0
    &&& n != seq!['.']
    &&& n != seq!['.', '.']
    &&& no_char(n, '/')
    &&& no_char(n, '\\')
    &&& no_char(n, ':')
}

/// The position of the last `.` of a name, or -1.
pub open spec fn last_dot(n: Seq<char>) -> int
    decreases n.len(),
{
    if n.len() == 0 {
        -1
    } else if n.last() == '.' {
        n.len() - 1
    } else {
        last_dot(n.drop_last())
    }
}

/// A file name's stem: the name before its final `.`, or the whole name when
/// it has no `.` after its first character.
pub open spec fn stem_of(n: Seq<char>) -> Seq<char> {
    let k = last_dot(n);
    if k <= 0 {
        n
    } else {
        n.subrange(0, k)
    }
}

/// A file name's extension: the name after its final `.`, when that `.` is
/// not its first character.
pub open spec fn extension_of(n: Seq<char>) -> Option<Seq<char>> {
    let k = last_dot(n);
    if k <= 0 {
        None
    } else {
        Some(n.subrange(k + 1, n.len() as int))
    }
}

/// Relies on Path::file_name: the last component of a path; a plain name is
/// its own last component.
#[verifier::external_body]
fn path_file_name(p: &str) -> (r: Option<String>)
    ensures
        plain_name(p@) ==> opt_view(r) == Some(p@),
{
    Path::new(p).file_name().and_then(|n| n.to_str()).map(|n| n.to_string())
}

/// Relies on Path::file_stem: for a plain name, the name before its final
/// `.`, or the whole name when it has no embedded `.`.
#[verifier::external_body]
fn path_file_stem(p: &str) -> (r: Option<String>)
    ensures
        plain_name(p@) ==> opt_view(r) == Some(stem_of(p@)),
{
    Path::new(p).file_stem().and_then(|n| n.to_str()).map(|n| n.to_string())
}

/// Relies on Path::extension: for a plain name, the name after its final
/// `.`, or `None` when it has no embedded `.`.
#[verifier::external_body]
fn path_extension(p: &str) -> (r: Option<String>)
    ensures
        plain_name(p@) ==> opt_view(r) == extension_of(p@),
{
    Path::new(p).extension().and_then(|n| n.to_str()).map(|n| n.to_string())
}

/// A resized copy of a photo.
#[derive(Clone, Debug, PartialEq, Eq)]
pub struct SizeRecord {
    pub suffix: String,
    pub filename: String,
    pub width: Option<u32>,
    pub height: Option<u32>,
}

/// One photo of an album index.
#[derive(Clone, Debug, PartialEq, Eq)]
pub struct PhotoRecord {
    pub filename: String,
    pub width: Option<u32>,
    pub height: Option<u32>,
    pub caption: Option<String>,
    pub sizes: Vec<SizeRecord>,
}

pub struct SizeRecordView {
    pub suffix: Seq<char>,
    pub filename: Seq<char>,
    pub width: Option<u32>,
    pub height: Option<u32>,
}

pub struct PhotoRecordView {
    pub filename: Seq<char>,
    pub width: Option<u32>,
    pub height: Option<u32>,
    pub caption: Option<Seq<char>>,
    pub sizes: Seq<SizeRecordView>,
}

impl View for SizeRecord {
    type V = SizeRecordView;

    open spec fn view(&self) -> SizeRecordView {
        SizeRecordView {
            suffix: self.suffix@,
            filename: self.filename@,
            width: self.width,
            height: self.height,
        }
    }
}

impl View for PhotoRecord {
    type V = PhotoRecordView;

    open spec fn view(&self) -> PhotoRecordView {
        PhotoRecordView {
            filename: self.filename@,
            width: self.width,
            height: self.height,
            caption: opt_view(self.caption),
            sizes: self.sizes@.map_values(|s: SizeRecord| s@),
        }
    }
}

/// The size last reported for a file name: a later report replaces an
/// earlier one.
pub open spec fn last_size(dims: Seq<ImageSizeView>, name: Seq<char>) -> Option<(u32, u32)>
    decreases dims.len(),
{
    if dims.len() == 0 {
        None
    } else if dims.last().filename == name {
        Some((dims.last().width, dims.last().height))
    } else {
        last_size(dims.drop_last(), name)
    }
}

/// The name ImageMagick gives a resized copy: `stem.suffix.ext`.
pub open spec fn resized_name(stem: Seq<char>, suffix: Seq<char>, ext: Seq<char>) -> Seq<char> {
    stem + seq!['.'] + suffix + seq!['.'] + ext
}

pub open spec fn size_record(
    dims: Seq<ImageSizeView>,
    stem: Seq<char>,
    ext: Seq<char>,
    suffix: Seq<char>,
) -> SizeRecordView {
    let name = resized_name(stem, suffix, ext);
    SizeRecordView {
        suffix,
        filename: name,
        width: match last_size(dims, name) {
            Some(s) => Some(s.0),
            None => None,
        },
        height: match last_size(dims, name) {
            Some(s) => Some(s.1),
            None => None,
        },
    }
}

/// A photo's record from its file name, that name's stem and extension (empty
/// when absent), its caption, the reported sizes and the resize suffixes.
pub open spec fn photo_record_of(
    filename: Seq<char>,
    stem: Seq<char>,
    ext: Seq<char>,
    caption: Option<Seq<char>>,
    dims: Seq<ImageSizeView>,
    suffixes: Seq<Seq<char>>,
) -> PhotoRecordView {
    PhotoRecordView {
        filename,
        width: match last_size(dims, filename) {
            Some(s) => Some(s.0),
            None => None,
        },
        height: match last_size(dims, filename) {
            Some(s) => Some(s.1),
            None => None,
        },
        caption,
        sizes: suffixes.map_values(|x: Seq<char>| size_record(dims, stem, ext, x)),
    }
}

fn lookup_size(dims: &Vec<ImageSize>, name: &String) -> (r: Option<(u32, u32)>)
    ensures
        r == last_size(view_sizes(dims@), name@),
{
    let ghost ds = view_sizes(dims@);
    let mut found: Option<(u32, u32)> = None;
    let mut i: usize = 0;
    while i < dims.len()
        invariant
            i <= dims@.len(),
            ds == view_sizes(dims@),
            found == last_size(ds.subrange(0, i as int), name@),
        decreases dims.len() - i,
    {
        assert(ds.subrange(0, i + 1).drop_last() =~= ds.subrange(0, i as int));
        assert(ds.subrange(0, i + 1).last() == dims@[i as int]@);
        if dims[i].filename == *name {
            found = Some((dims[i].width, dims[i].height));
        }
        i = i + 1;
    }
    assert(ds.subrange(0, dims@.len() as int) =~= ds);
    found
}

/// Builds one photo's record; see `photo_record_of`.
pub fn photo_record(
    filename: String,
    stem: &String,
    ext: &String,
    caption: Option<String>,
    dims: &Vec<ImageSize>,
    suffixes: &Vec<String>,
) -> (r: PhotoRecord)
    ensures
        r@ == photo_record_of(
            filename@,
            stem@,
            ext@,
            opt_view(caption),
            view_sizes(dims@),
            view_names(suffixes@),
        ),
{
    let ghost ds = view_sizes(dims@);
    let ghost sx = view_names(suffixes@);
    let mut sizes: Vec<SizeRecord> = Vec::new();
    let mut i: usize = 0;
    while i < suffixes.len()
        invariant
            i <= suffixes@.len(),
            ds == view_sizes(dims@),
            sx == view_names(suffixes@),
            sizes@.map_values(|s: SizeRecord| s@) == sx.subrange(0, i as int).map_values(
                |x: Seq<char>| size_record(ds, stem@, ext@, x),
            ),
        decreases suffixes.len() - i,
    {
        let mut name = stem.clone();
        name.append(".");
        name.append(suffixes[i].as_str());
        name.append(".");
        name.append(ext.as_str());
        proof {
            reveal_strlit(".");
        }
        assert(name@ =~= resized_name(stem@, sx[i as int], ext@));
        let found = lookup_size(dims, &name);
        let (w, h) = match found {
            Some(s) => (Some(s.0), Some(s.1)),
            None => (None, None),
        };
        let rec = SizeRecord { suffix: suffixes[i].clone(), filename: name, width: w, height: h };
        let ghost prev = sizes@.map_values(|s: SizeRecord| s@);
        sizes.push(rec);
        assert(sizes@.map_values(|s: SizeRecord| s@) =~= prev.push(rec@));
        assert(sx.subrange(0, i + 1).map_values(|x: Seq<char>| size_record(ds, stem@, ext@, x))
            =~= sx.subrange(0, i as int).map_values(
            |x: Seq<char>| size_record(ds, stem@, ext@, x),
        ).push(size_record(ds, stem@, ext@, sx[i as int])));
        i = i + 1;
    }
    assert(sx.subrange(0, suffixes@.len() as int) =~= sx);
    let found = lookup_size(dims, &filename);
    let (w, h) = match found {
        Some(s) => (Some(s.0), Some(s.1)),
        None => (None, None),
    };
    PhotoRecord { filename, width: w, height: h, caption, sizes }
}

fn or_empty(s: Option<String>) -> (r: String)
    ensures
        r@ == or_empty_view(opt_view(s)),
{
    match s {
        Some(t) => t,
        None => String::new(),
    }
}

/// A record is that of a photo with this caption: for some file name, stem
/// and extension.
pub open spec fn is_photo_of(
    rec: PhotoRecordView,
    caption: Option<Seq<char>>,
    dims: Seq<ImageSizeView>,
    suffixes: Seq<Seq<char>>,
) -> bool {
    exists|name: Seq<char>, stem: Seq<char>, ext: Seq<char>|
        rec == #[trigger] photo_record_of(name, stem, ext, caption, dims, suffixes)
}

/// An `href` percent-decoded, or the `href` itself when it does not decode.
pub open spec fn decoded_href(href: Seq<char>) -> Seq<char> {
    match url_decoded(href) {
        Some(d) => d,
        None => href,
    }
}

pub open spec fn or_empty_view(o: Option<Seq<char>>) -> Seq<char> {
    match o {
        Some(t) => t,
        None => Seq::<char>::empty(),
    }
}

/// The album index of a list of bookmarked files: one record per file, in
/// order, with its caption. A file's name is the last component of its
/// decoded `href` (the `href` itself when it does not decode), and its record
/// is `photo_record_of` that name, its stem and its extension. When the
/// decoded `href` is a plain name, that name is the file name.
pub fn build_album_index(
    files: &Vec<BookmarkFile>,
    dims: &Vec<ImageSize>,
    suffixes: &Vec<String>,
) -> (r: Vec<PhotoRecord>)
    ensures
        r@.len() == files@.len(),
        forall|i: int|
            0 <= i < r@.len() ==> is_photo_of(
                (#[trigger] r@[i])@,
                opt_view(files@[i].caption),
                view_sizes(dims@),
                view_names(suffixes@),
            ),
        forall|i: int|
            0 <= i < r@.len() && #[trigger] plain_name(decoded_href(files@[i].href@)) ==> r@[i]@
                == photo_record_of(
                decoded_href(files@[i].href@),
                stem_of(decoded_href(files@[i].href@)),
                or_empty_view(extension_of(decoded_href(files@[i].href@))),
                opt_view(files@[i].caption),
                view_sizes(dims@),
                view_names(suffixes@),
            ),
{
    let mut photos: Vec<PhotoRecord> = Vec::new();
    let mut i: usize = 0;
    while i < files.len()
        invariant
            i <= files@.len(),
            photos@.len() == i,
            forall|k: int|
                0 <= k < i ==> is_photo_of(
                    (#[trigger] photos@[k])@,
                    opt_view(files@[k].caption),
                    view_sizes(dims@),
                    view_names(suffixes@),
                ),
            forall|k: int|
                0 <= k < i && #[trigger] plain_name(decoded_href(files@[k].href@)) ==> photos@[k]@
                    == photo_record_of(
                    decoded_href(files@[k].href@),
                    stem_of(decoded_href(files@[k].href@)),
                    or_empty_view(extension_of(decoded_href(files@[k].href@))),
                    opt_view(files@[k].caption),
                    view_sizes(dims@),
                    view_names(suffixes@),
                ),
        decreases files.len() - i,
    {
        let f = &files[i];
        let decoded = match url_decode(f.href.as_str()) {
            Some(d) => d,
            None => f.href.clone(),
        };
        let ghost dv = decoded@;
        assert(dv == decoded_href(files@[i as int].href@));
        let filename = match path_file_name(decoded.as_str()) {
            Some(n) => n,
            None => decoded,
        };
        let stem = or_empty(path_file_stem(filename.as_str()));
        let ext = or_empty(path_extension(filename.as_str()));
        let ghost name_v = filename@;
        let rec = photo_record(filename, &stem, &ext, copy_opt_string(&f.caption), dims, suffixes);
        assert(rec@ == photo_record_of(
            name_v,
            stem@,
            ext@,
            opt_view(files@[i as int].caption),
            view_sizes(dims@),
            view_names(suffixes@),
        ));
        assert(is_photo_of(
            rec@,
            opt_view(files@[i as int].caption),
            view_sizes(dims@),
            view_names(suffixes@),
        ));
        assert(plain_name(dv) ==> name_v == dv && stem@ == stem_of(dv) && ext@ == or_empty_view(
            extension_of(dv),
        ));
        photos.push(rec);
        assert(photos@[i as int] == rec);
        i = i + 1;
    }
    photos
}

} // verus!
