//! Module names: eight bytes, padded with spaces, taken from a file name
//! without cutting through a character or a cluster of combined characters.
use vstd::prelude::*;

use vstd::string::*;
use vstd::utf8::*;

use unicode_segmentation::UnicodeSegmentation;

use crate::text::string_of;

verus! {

/// The byte offset and byte length of each (legacy) grapheme cluster of a
/// string, in order.
pub uninterp spec fn grapheme_spans_of(s: Seq<char>) -> Seq<(usize, usize)>;

/// Where cluster `k` starts: the end of the clusters before it.
pub open spec fn cluster_end(spans: Seq<(usize, usize)>, k: int) -> int {
    if k <= 0 {
        0
    } else {
        spans[k - 1].0 + spans[k - 1].1
    }
}

/// Relies on unicode-segmentation's `grapheme_indices` with legacy clusters:
/// the clusters of the string in order, each a non-empty substring at its byte
/// offset; together they cover the string's bytes from the start to the end.
#[verifier::external_body]
fn grapheme_spans(s: &str) -> (r: Vec<(usize, usize)>)
    ensures
        r@ == grapheme_spans_of(s@),
        forall|i: int| 0 <= i < r@.len() ==> #[trigger] r@[i].0 + r@[i].1 <= s.spec_bytes().len(),
        forall|i: int| 0 <= i < r@.len() ==> #[trigger] r@[i].1 > 0,
        forall|i: int| 0 <= i < r@.len() ==> #[trigger] r@[i].0 == cluster_end(r@, i),
        cluster_end(r@, r@.len() as int) == s.spec_bytes().len(),
{
    s.grapheme_indices(false).map(|(offset, cluster)| (offset, cluster.len())).collect()
}

/// The file name of a path up to its first `.`, if the path has a file name.
pub uninterp spec fn file_prefix_of(path: Seq<char>) -> Option<Seq<char>>;

/// Relies on std's `Path::file_prefix`: the final component of the path
/// without anything from its first `.` on, or nothing where the path has no
/// file name. A `&str` path is valid UTF-8, and so is every part of it.
#[verifier::external_body]
fn file_prefix(path: &str) -> (r: Option<String>)
    ensures
        r is Some <==> file_prefix_of(path@) is Some,
        r matches Some(p) ==> p@ == file_prefix_of(path@)->Some_0,
{
    std::path::Path::new(path).file_prefix().map(|p| p.to_string_lossy().into_owned())
}

/// A character with `a` to `z` made `A` to `Z`.
pub open spec fn ascii_upper(c: char) -> char {
    if 'a' <= c && c <= 'z' {
        ((c as u8) - 32) as u8 as char
    } else {
        c
    }
}

fn upper_char(c: char) -> (r: char)
    ensures
        r == ascii_upper(c),
{
    if 'a' <= c && c <= 'z' {
        ((c as u8) - 32) as char
    } else {
        c
    }
}

/// `s` with `a` to `z` made `A` to `Z` and every other character kept, as
/// `str::to_ascii_uppercase` does.
fn to_ascii_upper(s: &str) -> (r: String)
    ensures
        r@ == s@.map_values(|c: char| ascii_upper(c)),
{
    let n = s.unicode_len();
    let mut out: Vec<char> = Vec::new();
    let mut i: usize = 0;
    while i < n
        invariant
            n == s@.len(),
            i <= n,
            out@ == s@.take(i as int).map_values(|c: char| ascii_upper(c)),
        decreases n - i,
    {
        out.push(upper_char(s.get_char(i)));
        i = i + 1;
        assert(out@ =~= s@.take(i as int).map_values(|c: char| ascii_upper(c)));
    }
    assert(s@.take(n as int) =~= s@);
    string_of(out)
}

/// How many bytes of whole clusters fit in eight: clusters are taken from the
/// start while each ends within the first eight bytes.
pub open spec fn fitted_size(spans: Seq<(usize, usize)>, i: nat, size: int) -> int
    decreases spans.len() - i,
{
    if i >= spans.len() {
        size
    } else if spans[i as int].0 > 7 || spans[i as int].1 > 8 - spans[i as int].0 {
        size
    } else {
        fitted_size(spans, i + 1, spans[i as int].0 + spans[i as int].1)
    }
}

/// The first `size` bytes, then spaces up to eight bytes.
pub open spec fn padded_name(bytes: Seq<u8>, size: int) -> Seq<u8> {
    bytes.take(size) + Seq::new((8 - size) as nat, |i: int| 0x20u8)
}

/// The module name of a string: its longest run of whole clusters from the
/// start that fits in eight bytes, padded with spaces.
pub open spec fn module_name_of(s: Seq<char>) -> Seq<u8> {
    padded_name(encode_utf8(s), fitted_size(grapheme_spans_of(s), 0, 0))
}

/// The module name for a path's file name up to its first `.`, `p`: in
/// capitals; an ASCII name cut to eight bytes, any other to its whole clusters
/// that fit; then spaces.
pub open spec fn path_module_name_of(p: Seq<char>) -> Seq<u8> {
    let u = p.map_values(|c: char| ascii_upper(c));
    if is_ascii_chars(p) {
        padded_name(
            encode_utf8(u),
            if encode_utf8(u).len() < 8 {
                encode_utf8(u).len() as int
            } else {
                8
            },
        )
    } else {
        module_name_of(u)
    }
}

fn padded(bytes: &[u8], size: usize) -> (r: [u8; 8])
    requires
        size <= 8,
        size <= bytes@.len(),
    ensures
        r@ == padded_name(bytes@, size as int),
{
    let mut v: Vec<u8> = Vec::new();
    let mut i: usize = 0;
    while i < 8
        invariant
            i <= 8,
            size <= 8,
            size <= bytes@.len(),
            v@.len() == i,
            forall|j: int| 0 <= j < i ==> #[trigger] v@[j] == padded_name(bytes@, size as int)[j],
        decreases 8 - i,
    {
        if i < size {
            v.push(bytes[i]);
        } else {
            v.push(0x20);
        }
        i = i + 1;
    }
    let r: [u8; 8] = [v[0], v[1], v[2], v[3], v[4], v[5], v[6], v[7]];
    assert(r@ =~= padded_name(bytes@, size as int));
    r
}

/// The eight-byte module name of `name`: whole grapheme clusters from the
/// start while they fit, then spaces. The cut falls at the end of a cluster,
/// and the next cluster, if there is one, would not fit.
pub fn string_to_module_name(name: &str) -> (r: [u8; 8])
    ensures
        r@ == module_name_of(name@),
        exists|k: int|
            0 <= k <= grapheme_spans_of(name@).len() && fitted_size(grapheme_spans_of(name@), 0, 0)
                == #[trigger] cluster_end(grapheme_spans_of(name@), k) && (k == grapheme_spans_of(name@).len()
                || cluster_end(grapheme_spans_of(name@), k + 1) > 8),
        fitted_size(grapheme_spans_of(name@), 0, 0) <= 8,
{
    let spans = grapheme_spans(name);
    let bytes = name.as_bytes();
    let mut size: usize = 0;
    let mut i: usize = 0;
    while i < spans.len()
        invariant
            spans@ == grapheme_spans_of(name@),
            bytes@ == name.spec_bytes(),
            forall|k: int| 0 <= k < spans@.len() ==> #[trigger] spans@[k].0 + spans@[k].1 <= bytes@.len(),
            forall|k: int| 0 <= k < spans@.len() ==> #[trigger] spans@[k].1 > 0,
            forall|k: int| 0 <= k < spans@.len() ==> #[trigger] spans@[k].0 == cluster_end(spans@, k),
            i <= spans@.len(),
            size <= 8,
            size <= bytes@.len(),
            size == cluster_end(spans@, i as int),
            fitted_size(spans@, i as nat, size as int) == fitted_size(spans@, 0, 0),
        ensures
            size <= 8,
            size <= bytes@.len(),
            size == fitted_size(spans@, 0, 0),
            i <= spans@.len(),
            size == cluster_end(spans@, i as int),
            i == spans@.len() || cluster_end(spans@, i + 1) > 8,
        decreases spans@.len() - i,
    {
        let (offset, len) = spans[i];
        if offset > 7 || len > 8 - offset {
            break;
        }
        size = offset + len;
        i = i + 1;
    }
    assert(0 <= i <= spans@.len() && fitted_size(spans@, 0, 0) == cluster_end(spans@, i as int) && (i
        == spans@.len() || cluster_end(spans@, i + 1) > 8));
    padded(bytes, size)
}

/// The module name of a path: the file name up to its first `.`, in capitals
/// (`a` to `z` only). An ASCII name keeps its first eight bytes; any other
/// keeps its whole clusters that fit in eight bytes. Then spaces. `None` where
/// the path has no file name.
pub fn path_to_module_name(path: &str) -> (r: Option<[u8; 8]>)
    ensures
        r is Some <==> file_prefix_of(path@) is Some,
        r matches Some(n) ==> n@ == path_module_name_of(file_prefix_of(path@)->Some_0),
{
    let prefix = match file_prefix(path) {
        Some(p) => p,
        None => {
            return None;
        },
    };
    let upper = to_ascii_upper(prefix.as_str());
    if prefix.as_str().is_ascii() {
        let bytes = upper.as_str().as_bytes();
        let n = if bytes.len() < 8 {
            bytes.len()
        } else {
            8
        };
        Some(padded(bytes, n))
    } else {
        Some(string_to_module_name(upper.as_str()))
    }
}

} // verus!
