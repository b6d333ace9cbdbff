//! The album pipeline's rules: the folder-depth bound, when the album search
//! descends, and reading image sizes out of ImageMagick's `identify` output.

use vstd::prelude::*;
use crate::lexer::{find_char, find_char_exec};
use crate::text::{chars_of, digits_value, is_digit, lines_of, slice_of, split_lines, string_of, view_lines};

verus! {

/// The deepest album search a configuration may ask for.
pub const MAX_FOLDER_DEPTH: u32 = 64;

/// The configured depth when it is out of range (above 64), else `None`.
pub fn folder_depth_error(depth: Option<u32>) -> (r: Option<u32>)
    ensures
        r == match depth {
            Some(d) => if d > 64 {
                Some(d)
            } else {
                None
            },
            None => None,
        },
{
    match depth {
        Some(d) => {
            if d > MAX_FOLDER_DEPTH {
                Some(d)
            } else {
                None
            }
        },
        None => None,
    }
}

/// Whether the album search looks inside a folder at `current_depth`: always
/// without a limit, else only above it.
pub fn should_descend(current_depth: u32, max_depth: Option<u32>) -> (r: bool)
    ensures
        r == match max_depth {
            Some(m) => current_depth < m,
            None => true,
        },
{
    match max_depth {
        Some(m) => current_depth < m,
        None => true,
    }
}

/// An image's name and size as `identify` reports it.
#[derive(Clone, Debug, PartialEq, Eq)]
pub struct ImageSize {
    pub filename: String,
    pub width: u32,
    pub height: u32,
}

pub struct ImageSizeView {
    pub filename: Seq<char>,
    pub width: u32,
    pub height: u32,
}

impl View for ImageSize {
    type V = ImageSizeView;

    open spec fn view(&self) -> ImageSizeView {
        ImageSizeView { filename: self.filename@, width: self.width, height: self.height }
    }
}

pub open spec fn view_sizes(v: Seq<ImageSize>) -> Seq<ImageSizeView> {
    v.map_values(|s: ImageSize| s@)
}

/// A decimal `u32` as `str::parse` reads it: an optional `+`, then one or
/// more ASCII digits whose value fits.
pub open spec fn unsigned_digits(s: Seq<char>) -> Seq<char> {
    if s.len() > 0 && s[0] == '+' {
        s.drop_first()
    } else {
        s
    }
}

pub open spec fn all_digits(d: Seq<char>) -> bool {
    forall|k: int| 0 <= k < d.len() ==> is_digit(#[trigger] d[k])
}

pub open spec fn parse_u32(s: Seq<char>) -> Option<u32> {
    let d = unsigned_digits(s);
    if d.len() > 0 && all_digits(d) && digits_value(d) <= u32::MAX {
        Some(digits_value(d) as u32)
    } else {
        None
    }
}

/// A line `name,width,height`: exactly two commas and two numbers.
pub open spec fn size_of_line(line: Seq<char>) -> Option<ImageSizeView> {
    let c1 = find_char(line, 0, ',');
    let c2 = find_char(line, c1 + 1, ',');
    if c1 < line.len() && c2 < line.len() && find_char(line, c2 + 1, ',') == line.len() {
        match (parse_u32(line.subrange(c1 + 1, c2)), parse_u32(line.subrange(c2 + 1, line.len() as int))) {
            (Some(w), Some(h)) => Some(ImageSizeView { filename: line.subrange(0, c1), width: w, height: h }),
            _ => None,
        }
    } else {
        None
    }
}

/// The lines of a text as `str::lines` gives them: cut at `\n`, a `\r` before
/// the `\n` dropped. The piece after the last `\n` is kept even when empty;
/// an empty line holds no size, so this changes nothing below.
pub open spec fn output_line(pieces: Seq<Seq<char>>, i: int) -> Seq<char> {
    let p = pieces[i];
    if i + 1 < pieces.len() && p.len() > 0 && p.last() == '\r' {
        p.drop_last()
    } else {
        p
    }
}

pub open spec fn sizes_of_lines(pieces: Seq<Seq<char>>, n: int) -> Seq<ImageSizeView>
    decreases n,
{
    if n <= 0 {
        Seq::<ImageSizeView>::empty()
    } else {
        let prev = sizes_of_lines(pieces, n - 1);
        match size_of_line(output_line(pieces, n - 1)) {
            Some(s) => prev.push(s),
            None => prev,
        }
    }
}

/// The sizes that `identify -format "%f,%w,%h\n"` printed, in order; lines
/// of another shape are skipped.
pub open spec fn sizes_of_output(out: Seq<char>) -> Seq<ImageSizeView> {
    sizes_of_lines(split_lines(out), split_lines(out).len() as int)
}

fn parse_u32_exec(v: &Vec<char>, lo: usize, hi: usize) -> (r: Option<u32>)
    requires
        lo <= hi <= v@.len(),
    ensures
        r == parse_u32(v@.subrange(lo as int, hi as int)),
{
    let ghost s = v@.subrange(lo as int, hi as int);
    let mut start = lo;
    if lo < hi && v[lo] == '+' {
        start = lo + 1;
    }
    let ghost d = v@.subrange(start as int, hi as int);
    assert(d =~= unsigned_digits(s));
    if start >= hi {
        return None;
    }
    let mut value: u64 = 0;
    let mut i = start;
    assert(v@.subrange(start as int, start as int) =~= Seq::<char>::empty());
    while i < hi
        invariant
            lo <= start <= i <= hi,
            hi <= v@.len(),
            d == v@.subrange(start as int, hi as int),
            d == unsigned_digits(v@.subrange(lo as int, hi as int)),
            forall|k: int| start <= k < i ==> is_digit(#[trigger] v@[k]),
            value == digits_value(v@.subrange(start as int, i as int)),
            value <= u32::MAX,
        decreases hi - i,
    {
        let c = v[i];
        let u = c as u32;
        if !(48 <= u && u <= 57) {
            assert(d[i - start] == v@[i as int]);
            assert(!all_digits(d));
            return None;
        }
        let ghost sub = v@.subrange(start as int, i + 1);
        assert(sub.drop_last() =~= v@.subrange(start as int, i as int));
        assert(sub.last() == c);
        let next = value * 10 + (u - 48) as u64;
        if next > 4294967295 {
            proof {
                if all_digits(d) {
                    lemma_digits_value_prefix(d, i + 1 - start);
                    assert(d.subrange(0, i + 1 - start) =~= sub);
                }
            }
            return None;
        }
        value = next;
        i = i + 1;
    }
    assert(all_digits(d)) by {
        assert forall|k: int| 0 <= k < d.len() implies is_digit(#[trigger] d[k]) by {
            assert(d[k] == v@[start + k]);
        }
    }
    assert(v@.subrange(start as int, hi as int) =~= d);
    Some(value as u32)
}

/// A longer run of digits reads as no less than its prefix.
proof fn lemma_digits_value_prefix(d: Seq<char>, n: int)
    requires
        0 <= n <= d.len(),
        all_digits(d),
    ensures
        digits_value(d) >= digits_value(d.subrange(0, n)),
    decreases d.len() - n,
{
    if n < d.len() {
        lemma_digits_value_prefix(d, n + 1);
        let a = d.subrange(0, n + 1);
        assert(a.drop_last() =~= d.subrange(0, n));
        assert(is_digit(a.last()));
    } else {
        assert(d.subrange(0, n) =~= d);
    }
}

fn size_of_line_exec(line: &Vec<char>) -> (r: Option<ImageSize>)
    ensures
        match r {
            Some(s) => size_of_line(line@) == Some(s@),
            None => size_of_line(line@) is None,
        },
{
    let n = line.len();
    let c1 = find_char_exec(line, 0, ',');
    if c1 >= n {
        return None;
    }
    let c2 = find_char_exec(line, c1 + 1, ',');
    if c2 >= n {
        return None;
    }
    let c3 = find_char_exec(line, c2 + 1, ',');
    if c3 != n {
        return None;
    }
    match (parse_u32_exec(line, c1 + 1, c2), parse_u32_exec(line, c2 + 1, n)) {
        (Some(w), Some(h)) => {
            let filename = string_of(&slice_of(line, 0, c1));
            Some(ImageSize { filename, width: w, height: h })
        },
        _ => None,
    }
}

/// Reads the image sizes out of `identify`'s output.
pub fn parse_image_sizes(output: &str) -> (r: Vec<ImageSize>)
    ensures
        view_sizes(r@) == sizes_of_output(output@),
{
    let chars = chars_of(output);
    let pieces = lines_of(&chars, 0, chars.len());
    assert(chars@.subrange(0, chars@.len() as int) =~= chars@);
    let ghost ps = view_lines(pieces@);
    let mut out: Vec<ImageSize> = Vec::new();
    let mut i: usize = 0;
    while i < pieces.len()
        invariant
            i <= pieces@.len(),
            ps == view_lines(pieces@),
            ps == split_lines(output@),
            view_sizes(out@) == sizes_of_lines(ps, i as int),
        decreases pieces.len() - i,
    {
        let p = &pieces[i];
        assert(ps[i as int] == p@);
        let ghost line = output_line(ps, i as int);
        let sz = if i + 1 < pieces.len() && p.len() > 0 && p[p.len() - 1] == '\r' {
            let q = slice_of(p, 0, p.len() - 1);
            assert(q@ =~= line);
            size_of_line_exec(&q)
        } else {
            size_of_line_exec(p)
        };
        match sz {
            Some(s) => {
                let ghost before = view_sizes(out@);
                out.push(s);
                assert(view_sizes(out@) =~= before.push(s@));
            },
            None => {},
        }
        i = i + 1;
    }
    out
}

} // verus!
