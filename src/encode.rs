//! Percent-encoding of file names and relative paths for `href` values.

use vstd::prelude::*;
use vstd::utf8::encode_utf8;

verus! {

/// Bytes that percent-encoding leaves as they are: ASCII alphanumerics and `-._~`.
pub open spec fn is_unreserved(b: u8) -> bool {
    (48 <= b <= 57) || (65 <= b <= 90) || (97 <= b <= 122) || b == 45 || b == 46 || b == 95
        || b == 126
}

/// An uppercase hexadecimal digit for a value below 16.
pub open spec fn hex_digit(d: u8) -> char {
    if d < 10 {
        (48 + d) as char
    } else {
        (55 + d) as char
    }
}

pub open spec fn encode_byte(b: u8) -> Seq<char> {
    if is_unreserved(b) {
        seq![b as char]
    } else {
        seq!['%', hex_digit(b / 16), hex_digit(b % 16)]
    }
}

pub open spec fn percent_encode_bytes(bs: Seq<u8>) -> Seq<char>
    decreases bs.len(),
{
    if bs.len() == 0 {
        Seq::<char>::empty()
    } else {
        encode_byte(bs[0]) + percent_encode_bytes(bs.drop_first())
    }
}

/// The percent-encoding of a string: each byte of its UTF-8 form is kept when
/// unreserved and written as `%XX` otherwise.
pub open spec fn percent_encoded(s: Seq<char>) -> Seq<char> {
    percent_encode_bytes(encode_utf8(s))
}

/// The `href` of a relative path: each segment encoded, joined by `/`.
pub open spec fn encoded_path(segments: Seq<Seq<char>>) -> Seq<char>
    decreases segments.len(),
{
    if segments.len() == 0 {
        Seq::<char>::empty()
    } else if segments.len() == 1 {
        percent_encoded(segments[0])
    } else {
        encoded_path(segments.drop_last()) + seq!['/'] + percent_encoded(segments.last())
    }
}

/// Relies on urlencoding::encode, which percent-encodes every UTF-8 byte but
/// ASCII alphanumerics and `-._~`, with uppercase hex digits.
#[verifier::external_body]
fn percent_encode(s: &str) -> (r: String)
    ensures
        r@ == percent_encoded(s@),
{
    urlencoding::encode(s).into_owned()
}

/// Percent-encodes a file name into an `href`.
pub fn encode_name(name: &String) -> (r: String)
    ensures
        r@ == percent_encoded(name@),
{
    percent_encode(name.as_str())
}

/// Encodes a relative path given by its segments, each segment on its own, so
/// that the `/` separators stay literal.
pub fn encode_path_preserving_slashes(segments: &Vec<String>) -> (r: String)
    ensures
        r@ == encoded_path(segments@.map_values(|s: String| s@)),
{
    let ghost segs = segments@.map_values(|s: String| s@);
    let mut out = String::new();
    let mut i: usize = 0;
    while i < segments.len()
        invariant
            i <= segments.len(),
            segs == segments@.map_values(|s: String| s@),
            out@ == encoded_path(segs.subrange(0, i as int)),
        decreases segments.len() - i,
    {
        let piece = percent_encode(segments[i].as_str());
        assert(segs.subrange(0, i + 1).drop_last() =~= segs.subrange(0, i as int));
        proof {
            reveal_strlit("/");
        }
        if i > 0 {
            out.append("/");
            out.append(piece.as_str());
        } else {
            out = piece;
        }
        i = i + 1;
    }
    assert(segs.subrange(0, segments.len() as int) =~= segs);
    out
}

} // verus!

verus! {

/// Characters an encoded `href` never holds: it stays inside one attribute
/// value and one line, with no character reference.
pub open spec fn href_safe(c: char) -> bool {
    c != '"' && c != '\n' && c != '&' && c != '<'
}

proof fn lemma_encode_byte(b: u8)
    ensures
        encode_byte(b).len() >= 1,
        forall|k: int| 0 <= k < encode_byte(b).len() ==> href_safe(#[trigger] encode_byte(b)[k]),
{
    if is_unreserved(b) {
        assert((b as char) as u32 == b as u32);
    } else {
        assert((hex_digit(b / 16)) as u32 >= 48);
        assert((hex_digit(b % 16)) as u32 >= 48);
    }
}

proof fn lemma_percent_bytes(bs: Seq<u8>)
    ensures
        percent_encode_bytes(bs).len() >= bs.len(),
        forall|k: int|
            0 <= k < percent_encode_bytes(bs).len() ==> href_safe(
                #[trigger] percent_encode_bytes(bs)[k],
            ),
    decreases bs.len(),
{
    if bs.len() > 0 {
        let x = encode_byte(bs[0]);
        let y = percent_encode_bytes(bs.drop_first());
        lemma_encode_byte(bs[0]);
        lemma_percent_bytes(bs.drop_first());
        assert forall|k: int| 0 <= k < (x + y).len() implies href_safe(#[trigger] (x + y)[k]) by {
            if k < x.len() {
                assert((x + y)[k] == x[k]);
            } else {
                assert((x + y)[k] == y[k - x.len()]);
            }
        }
    }
}

proof fn lemma_utf8_nonempty(s: Seq<char>)
    requires
        s.len() > 0,
    ensures
        encode_utf8(s).len() > 0,
{
    let e = vstd::utf8::encode_scalar(s[0] as u32);
    assert(e.len() > 0);
    assert(encode_utf8(s) == e + encode_utf8(s.drop_first()));
}

/// An encoded name is non-empty when the name is, and holds no `"`, newline,
/// `&` or `<`.
pub proof fn lemma_percent_encoded(s: Seq<char>)
    ensures
        s.len() > 0 ==> percent_encoded(s).len() > 0,
        forall|k: int|
            0 <= k < percent_encoded(s).len() ==> href_safe(#[trigger] percent_encoded(s)[k]),
{
    lemma_percent_bytes(encode_utf8(s));
    if s.len() > 0 {
        lemma_utf8_nonempty(s);
    }
}

/// The same for a path of two segments.
pub proof fn lemma_encoded_pair(segs: Seq<Seq<char>>)
    requires
        segs.len() == 2,
    ensures
        encoded_path(segs).len() > 0,
        forall|k: int|
            0 <= k < encoded_path(segs).len() ==> href_safe(#[trigger] encoded_path(segs)[k]),
{
    let a = segs[0];
    let b = segs[1];
    assert(segs.drop_last() =~= seq![a]);
    assert(segs.last() == b);
    let x = percent_encoded(a);
    let y = percent_encoded(b);
    assert(encoded_path(seq![a]) == x);
    assert(encoded_path(segs) == x + seq!['/'] + y);
    lemma_percent_encoded(a);
    lemma_percent_encoded(b);
    let r = x + seq!['/'] + y;
    assert forall|k: int| 0 <= k < r.len() implies href_safe(#[trigger] r[k]) by {
        if k < x.len() {
            assert(r[k] == x[k]);
        } else if k > x.len() {
            assert(r[k] == y[k - x.len() - 1]);
        }
    }
}

} // verus!
