//! Little-endian integers and length-prefixed byte strings: how they look on
//! disk, how they are read from a buffer at an offset, and how they are written.
use vstd::prelude::*;

verus! {

/// The two bytes of `v`, least significant first.
pub open spec fn le16(v: u16) -> Seq<u8> {
    seq![(v % 256) as u8, (v / 256) as u8]
}

/// The four bytes of `v`, least significant first.
pub open spec fn le32(v: u32) -> Seq<u8> {
    le16((v % 65536) as u16) + le16((v / 65536) as u16)
}

/// A byte string behind a one-byte length.
pub open spec fn pstr(s: Seq<u8>) -> Seq<u8> {
    seq![s.len() as u8] + s
}

/// A byte string behind a two-byte length.
pub open spec fn pstr16(s: Seq<u8>) -> Seq<u8> {
    le16(s.len() as u16) + s
}

/// `t` stands in `b` from offset `pos` on.
#[verifier::opaque]
pub open spec fn occurs_at(t: Seq<u8>, b: Seq<u8>, pos: int) -> bool {
    0 <= pos && pos + t.len() <= b.len() && b.subrange(pos, pos + t.len()) == t
}

pub proof fn lemma_occurs_concat(t: Seq<u8>, u: Seq<u8>, b: Seq<u8>, pos: int)
    ensures
        occurs_at(t + u, b, pos) <==> (occurs_at(t, b, pos) && occurs_at(u, b, pos + t.len())),
{
    reveal(occurs_at);
    if occurs_at(t + u, b, pos) {
        let s = b.subrange(pos, pos + t.len() + u.len());
        assert forall|i: int| 0 <= i < t.len() implies b.subrange(pos, pos + t.len())[i] == t[i] by {
            assert(s[i] == (t + u)[i]);
        }
        assert forall|i: int| 0 <= i < u.len() implies b.subrange(
            pos + t.len(),
            pos + t.len() + u.len(),
        )[i] == u[i] by {
            assert(s[t.len() + i] == (t + u)[t.len() + i]);
        }
        assert(b.subrange(pos, pos + t.len()) =~= t);
        assert(b.subrange(pos + t.len(), pos + t.len() + u.len()) =~= u);
    }
    if occurs_at(t, b, pos) && occurs_at(u, b, pos + t.len()) {
        assert forall|i: int| 0 <= i < t.len() + u.len() implies b.subrange(
            pos,
            pos + t.len() + u.len(),
        )[i] == (t + u)[i] by {
            if i < t.len() {
                assert(b.subrange(pos, pos + t.len())[i] == t[i]);
            } else {
                assert(b.subrange(pos + t.len(), pos + t.len() + u.len())[i - t.len()] == u[i
                    - t.len()]);
            }
        }
        assert(b.subrange(pos, pos + (t + u).len()) =~= t + u);
    }
}

pub proof fn lemma_occurs_cons(x: u8, u: Seq<u8>, b: Seq<u8>, pos: int)
    ensures
        occurs_at(seq![x] + u, b, pos) <==> (0 <= pos < b.len() && b[pos] == x && occurs_at(
            u,
            b,
            pos + 1,
        )),
{
    reveal(occurs_at);
    lemma_occurs_concat(seq![x], u, b, pos);
    if 0 <= pos < b.len() && b[pos] == x {
        assert(b.subrange(pos, pos + 1) =~= seq![x]);
    }
    if occurs_at(seq![x], b, pos) {
        assert(b.subrange(pos, pos + 1)[0] == b[pos]);
    }
}

pub proof fn lemma_occurs_bounds(t: Seq<u8>, b: Seq<u8>, pos: int)
    ensures
        occurs_at(t, b, pos) ==> 0 <= pos && pos + t.len() <= b.len(),
{
    reveal(occurs_at);
}

/// What `occurs_at` says, for proofs that need its definition.
pub proof fn lemma_occurs_exact(t: Seq<u8>, b: Seq<u8>, pos: int)
    ensures
        occurs_at(t, b, pos) <==> (0 <= pos && pos + t.len() <= b.len() && b.subrange(
            pos,
            pos + t.len(),
        ) == t),
{
    reveal(occurs_at);
}

pub proof fn lemma_occurs_prefix(t: Seq<u8>, m: int, b: Seq<u8>, pos: int)
    requires
        occurs_at(t, b, pos),
        0 <= m <= t.len(),
    ensures
        occurs_at(t.subrange(0, m), b, pos),
{
    reveal(occurs_at);
    assert(b.subrange(pos, pos + m) =~= t.subrange(0, m));
}

pub proof fn lemma_occurs_empty(b: Seq<u8>, pos: int)
    requires
        0 <= pos <= b.len(),
    ensures
        occurs_at(Seq::empty(), b, pos),
{
    reveal(occurs_at);
    assert(b.subrange(pos, pos) =~= Seq::<u8>::empty());
}

pub proof fn lemma_le16_injective(v: u16, w: u16)
    ensures
        le16(v) == le16(w) ==> v == w,
{
    reveal(occurs_at);
    if le16(v) == le16(w) {
        assert(le16(v)[0] == le16(w)[0]);
        assert(le16(v)[1] == le16(w)[1]);
    }
}

pub proof fn lemma_le32_injective(v: u32, w: u32)
    ensures
        le32(v) == le32(w) ==> v == w,
{
    reveal(occurs_at);
    if le32(v) == le32(w) {
        let (a, c) = (le16((v % 65536) as u16), le16((v / 65536) as u16));
        let (d, e) = (le16((w % 65536) as u16), le16((w / 65536) as u16));
        assert(a =~= le32(v).subrange(0, 2));
        assert(d =~= le32(w).subrange(0, 2));
        assert(c =~= le32(v).subrange(2, 4));
        assert(e =~= le32(w).subrange(2, 4));
        lemma_le16_injective((v % 65536) as u16, (w % 65536) as u16);
        lemma_le16_injective((v / 65536) as u16, (w / 65536) as u16);
    }
}

/// Reads one byte at `pos`.
pub fn read_u8(b: &[u8], pos: usize) -> (r: Option<u8>)
    ensures
        r is Some <==> pos < b@.len(),
        r matches Some(v) ==> occurs_at(seq![v], b@, pos as int) && b@[pos as int] == v,
        forall|v: u8| occurs_at(seq![v], b@, pos as int) ==> r == Some(v),
{
    reveal(occurs_at);
    if pos < b.len() {
        let v = b[pos];
        assert(b@.subrange(pos as int, pos + 1) =~= seq![v]);
        proof {
            assert forall|w: u8| occurs_at(seq![w], b@, pos as int) implies w == v by {
                assert(b@.subrange(pos as int, pos + 1)[0] == b@[pos as int]);
            }
        }
        Some(v)
    } else {
        None
    }
}

/// Reads a little-endian `u16` at `pos`.
pub fn read_u16(b: &[u8], pos: usize) -> (r: Option<u16>)
    ensures
        r is Some <==> pos + 2 <= b@.len(),
        r matches Some(v) ==> occurs_at(le16(v), b@, pos as int),
        forall|v: u16| occurs_at(le16(v), b@, pos as int) ==> r == Some(v),
{
    reveal(occurs_at);
    if pos <= b.len() && b.len() - pos >= 2 {
        let v: u16 = b[pos] as u16 + 256 * (b[pos + 1] as u16);
        assert(b@.subrange(pos as int, pos + 2) =~= le16(v));
        proof {
            assert forall|w: u16| occurs_at(le16(w), b@, pos as int) implies w == v by {
                lemma_le16_injective(v, w);
            }
        }
        Some(v)
    } else {
        None
    }
}

/// Reads a little-endian `u32` at `pos`.
pub fn read_u32(b: &[u8], pos: usize) -> (r: Option<u32>)
    ensures
        r is Some <==> pos + 4 <= b@.len(),
        r matches Some(v) ==> occurs_at(le32(v), b@, pos as int),
        forall|v: u32| occurs_at(le32(v), b@, pos as int) ==> r == Some(v),
{
    reveal(occurs_at);
    if pos <= b.len() && b.len() - pos >= 4 {
        let lo = read_u16(b, pos).unwrap();
        let hi = read_u16(b, pos + 2).unwrap();
        let v: u32 = lo as u32 + 65536 * (hi as u32);
        assert((v % 65536) as u16 == lo && (v / 65536) as u16 == hi);
        proof {
            lemma_occurs_concat(le16(lo), le16(hi), b@, pos as int);
            assert forall|w: u32| occurs_at(le32(w), b@, pos as int) implies w == v by {
                lemma_le32_injective(v, w);
            }
        }
        Some(v)
    } else {
        None
    }
}

/// Reads a little-endian two's-complement `i32` at `pos`.
pub fn read_i32(b: &[u8], pos: usize) -> (r: Option<i32>)
    ensures
        r is Some <==> pos + 4 <= b@.len(),
        r matches Some(v) ==> occurs_at(le32(v as u32), b@, pos as int),
        forall|v: i32| #[trigger] occurs_at(le32(v as u32), b@, pos as int) ==> r == Some(v),
{
    reveal(occurs_at);
    match read_u32(b, pos) {
        Some(u) => {
            let v = u as i32;
            assert(v as u32 == u) by (bit_vector)
                requires
                    v == u as i32,
            ;
            proof {
                assert forall|w: i32| #[trigger] occurs_at(le32(w as u32), b@, pos as int) implies w == v by {
                    assert(w as u32 == u);
                    assert(w == v) by (bit_vector)
                        requires
                            w as u32 == u,
                            v == u as i32,
                    ;
                }
            }
            Some(v)
        },
        None => None,
    }
}

/// Copies `n` bytes from `pos`.
pub fn read_bytes(b: &[u8], pos: usize, n: usize) -> (r: Option<Vec<u8>>)
    ensures
        r is Some <==> pos + n <= b@.len(),
        r matches Some(v) ==> v@.len() == n && occurs_at(v@, b@, pos as int),
{
    reveal(occurs_at);
    if pos <= b.len() && b.len() - pos >= n {
        let mut v: Vec<u8> = Vec::new();
        let mut i: usize = 0;
        while i < n
            invariant
                i <= n,
                pos + n <= b@.len(),
                b@.len() <= usize::MAX,
                v@ == b@.subrange(pos as int, pos + i),
            decreases n - i,
        {
            v.push(b[pos + i]);
            i = i + 1;
            assert(v@ =~= b@.subrange(pos as int, pos + i));
        }
        Some(v)
    } else {
        None
    }
}

/// Reads a byte string behind a one-byte length.
pub fn read_pstr(b: &[u8], pos: usize) -> (r: Option<(Vec<u8>, usize)>)
    ensures
        r matches Some((s, n)) ==> s@.len() <= 255 && n == pos + pstr(s@).len() && occurs_at(
            pstr(s@),
            b@,
            pos as int,
        ),
        forall|s: Seq<u8>|
            s.len() <= 255 && #[trigger] occurs_at(pstr(s), b@, pos as int) ==> (r matches Some((t, n)) && t@ == s && n == pos + s.len() + 1),
{
    reveal(occurs_at);
    let total = b.len();
    match read_u8(b, pos) {
        None => {
            proof {
                assert forall|s: Seq<u8>| s.len() <= 255 && #[trigger] occurs_at(pstr(s), b@, pos as int)
                    implies false by {
                    lemma_occurs_cons(s.len() as u8, s, b@, pos as int);
                }
            }
            None
        },
        Some(len) => {
            proof {
                lemma_occurs_cons(len, b@.subrange(pos + 1, pos + 1), b@, pos as int);
            }
            match read_bytes(b, pos + 1, len as usize) {
                None => {
                    proof {
                        assert forall|s: Seq<u8>|
                            s.len() <= 255 && #[trigger] occurs_at(pstr(s), b@, pos as int) implies false by {
                            lemma_occurs_cons(s.len() as u8, s, b@, pos as int);
                            assert(b@[pos as int] == len);
                        }
                    }
                    None
                },
                Some(v) => {
                    proof {
                        lemma_occurs_cons(len, v@, b@, pos as int);
                        assert forall|s: Seq<u8>|
                            s.len() <= 255 && #[trigger] occurs_at(pstr(s), b@, pos as int) implies s
                            == v@ by {
                            lemma_occurs_cons(s.len() as u8, s, b@, pos as int);
                            assert(b@[pos as int] == len);
                        }
                    }
                    Some((v, pos + 1 + len as usize))
                },
            }
        },
    }
}

/// Reads a byte string behind a two-byte length.
pub fn read_pstr16(b: &[u8], pos: usize) -> (r: Option<(Vec<u8>, usize)>)
    ensures
        r matches Some((s, n)) ==> s@.len() <= 65535 && n == pos + pstr16(s@).len() && occurs_at(
            pstr16(s@),
            b@,
            pos as int,
        ),
        forall|s: Seq<u8>|
            s.len() <= 65535 && #[trigger] occurs_at(pstr16(s), b@, pos as int) ==> (r matches Some((t, n)) && t@ == s && n == pos + s.len() + 2),
{
    reveal(occurs_at);
    let total = b.len();
    match read_u16(b, pos) {
        None => {
            proof {
                assert forall|s: Seq<u8>| s.len() <= 65535 && #[trigger] occurs_at(pstr16(s), b@, pos as int)
                    implies false by {
                    lemma_occurs_concat(le16(s.len() as u16), s, b@, pos as int);
                }
            }
            None
        },
        Some(len) => {
            if pos > usize::MAX - 2 {
                proof {
                    assert(false);
                }
                return None;
            }
            match read_bytes(b, pos + 2, len as usize) {
                None => {
                    proof {
                        assert forall|s: Seq<u8>|
                            s.len() <= 65535 && #[trigger] occurs_at(pstr16(s), b@, pos as int) implies false by {
                            lemma_occurs_concat(le16(s.len() as u16), s, b@, pos as int);
                        }
                    }
                    None
                },
                Some(v) => {
                    proof {
                        lemma_occurs_concat(le16(len), v@, b@, pos as int);
                        assert(v@.len() as u16 == len);
                        assert forall|s: Seq<u8>|
                            s.len() <= 65535 && #[trigger] occurs_at(pstr16(s), b@, pos as int) implies s
                            == v@ by {
                            lemma_occurs_concat(le16(s.len() as u16), s, b@, pos as int);
                        }
                    }
                    Some((v, pos + 2 + len as usize))
                },
            }
        },
    }
}

pub fn write_u8(out: &mut Vec<u8>, v: u8)
    ensures
        final(out)@ == old(out)@ + seq![v],
{
    reveal(occurs_at);
    out.push(v);
}

pub fn write_u16(out: &mut Vec<u8>, v: u16)
    ensures
        final(out)@ == old(out)@ + le16(v),
{
    reveal(occurs_at);
    out.push((v % 256) as u8);
    out.push((v / 256) as u8);
    assert(out@ =~= old(out)@ + le16(v));
}

pub fn write_u32(out: &mut Vec<u8>, v: u32)
    ensures
        final(out)@ == old(out)@ + le32(v),
{
    reveal(occurs_at);
    write_u16(out, (v % 65536) as u16);
    write_u16(out, (v / 65536) as u16);
    assert(out@ =~= old(out)@ + le32(v));
}

/// Appends `s` as it stands.
pub fn write_bytes(out: &mut Vec<u8>, s: &[u8])
    ensures
        final(out)@ == old(out)@ + s@,
{
    reveal(occurs_at);
    let mut i: usize = 0;
    while i < s.len()
        invariant
            i <= s@.len(),
            out@ == old(out)@ + s@.subrange(0, i as int),
        decreases s@.len() - i,
    {
        out.push(s[i]);
        i = i + 1;
        assert(out@ =~= old(out)@ + s@.subrange(0, i as int));
    }
    assert(s@.subrange(0, s@.len() as int) =~= s@);
}

pub fn write_pstr(out: &mut Vec<u8>, s: &[u8])
    requires
        s@.len() <= 255,
    ensures
        final(out)@ == old(out)@ + pstr(s@),
{
    reveal(occurs_at);
    write_u8(out, s.len() as u8);
    write_bytes(out, s);
    assert(out@ =~= old(out)@ + pstr(s@));
}

pub fn write_pstr16(out: &mut Vec<u8>, s: &[u8])
    requires
        s@.len() <= 65535,
    ensures
        final(out)@ == old(out)@ + pstr16(s@),
{
    reveal(occurs_at);
    write_u16(out, s.len() as u16);
    write_bytes(out, s);
    assert(out@ =~= old(out)@ + pstr16(s@));
}

} // verus!
