//! An object file: the magic `LNK`, a version byte, and records up to and
//! including the first `NOP`.
use vstd::prelude::*;

use crate::bytes::{
    occurs_at, lemma_occurs_bounds, lemma_occurs_concat, lemma_occurs_empty, lemma_occurs_exact,
    lemma_occurs_prefix, read_u8, write_u8,
};
use crate::section::{Section, enc_section, wf_section, decode_section, encode_section};
use crate::text::{lossy_string, utf8_lossy};

verus! {

/// The magic that starts an object file.
pub open spec fn obj_magic() -> Seq<u8> {
    seq![76u8, 78u8, 75u8]
}

/// The bytes of a list of records, one after the other.
pub open spec fn enc_sections(s: Seq<Section>) -> Seq<u8>
    decreases s.len(),
{
    if s.len() == 0 {
        Seq::empty()
    } else {
        enc_sections(s.drop_last()) + enc_section(s.last())
    }
}

/// An object file.
#[derive(Clone, Debug, PartialEq, Eq)]
pub struct OBJ {
    pub version: u8,
    pub sections: Vec<Section>,
}

/// The bytes of an object file on disk.
pub open spec fn enc_obj(o: OBJ) -> Seq<u8> {
    obj_magic() + seq![o.version] + enc_sections(o.sections@)
}

/// A record list that ends with its one `NOP`.
pub open spec fn nop_terminated(s: Seq<Section>) -> bool {
    s.len() >= 1 && s.last() == Section::NOP && forall|i: int|
        0 <= i < s.len() - 1 ==> s[i] != Section::NOP
}

/// An object file that can be written and read back: its records are readable
/// and end with the one `NOP`.
pub open spec fn wf_obj(o: OBJ) -> bool {
    nop_terminated(o.sections@) && forall|i: int|
        0 <= i < o.sections@.len() ==> wf_section(#[trigger] o.sections@[i])
}

proof fn lemma_sections_take_prefix(s: Seq<Section>, j: int)
    requires
        0 <= j <= s.len(),
    ensures
        enc_sections(s.take(j)).len() <= enc_sections(s).len(),
        enc_sections(s.take(j)) == enc_sections(s).subrange(0, enc_sections(s.take(j)).len() as int),
    decreases s.len() - j,
{
    if j == s.len() {
        assert(s.take(j) =~= s);
    } else {
        lemma_sections_take_prefix(s, j + 1);
        assert(s.take(j + 1).drop_last() =~= s.take(j));
        let a = enc_sections(s.take(j));
        let c = enc_sections(s.take(j + 1));
        assert(c == a + enc_section(s[j]));
        assert(a =~= c.subrange(0, a.len() as int));
        assert(a =~= enc_sections(s).subrange(0, a.len() as int));
    }
}

/// Where the records of `s` stand from `pos` on, record `k` stands after the
/// first `k` of them.
proof fn lemma_sections_at(s: Seq<Section>, k: int, b: Seq<u8>, pos: int)
    requires
        0 <= k < s.len(),
        occurs_at(enc_sections(s), b, pos),
    ensures
        occurs_at(enc_sections(s.take(k)), b, pos),
        occurs_at(enc_section(s[k]), b, pos + enc_sections(s.take(k)).len()),
{
    lemma_sections_take_prefix(s, k + 1);
    let c = enc_sections(s.take(k + 1));
    lemma_occurs_prefix(enc_sections(s), c.len() as int, b, pos);
    assert(s.take(k + 1).drop_last() =~= s.take(k));
    assert(s.take(k + 1).last() == s[k]);
    lemma_occurs_concat(enc_sections(s.take(k)), enc_section(s[k]), b, pos);
}

/// Readable records other than `NOP` stand from `pos` up to `at`, and no
/// readable record stands at `at`.
pub open spec fn records_fail_at(b: Seq<u8>, pos: int, at: int) -> bool {
    (exists|s: Seq<Section>|
        (forall|i: int| 0 <= i < s.len() ==> wf_section(#[trigger] s[i]) && s[i] != Section::NOP)
            && #[trigger] occurs_at(enc_sections(s), b, pos) && at == pos + enc_sections(s).len())
        && forall|x: Section| wf_section(x) ==> !#[trigger] occurs_at(enc_section(x), b, at)
}

/// Reads the records that start at `pos`, up to and including the first `NOP`.
/// It fails, with the offset of the record it could not read, exactly where no
/// list of readable records that ends with its one `NOP` stands at `pos`.
pub fn decode_sections(b: &[u8], pos: usize) -> (r: Result<(Vec<Section>, usize), usize>)
    requires
        pos <= b@.len(),
    ensures
        r matches Err(at) ==> records_fail_at(b@, pos as int, at as int),
        r matches Ok((s, n)) ==> nop_terminated(s@) && (forall|i: int|
            0 <= i < s@.len() ==> wf_section(#[trigger] s@[i])) && n == pos + enc_sections(
            s@,
        ).len() && occurs_at(enc_sections(s@), b@, pos as int),
        forall|x: Seq<Section>|
            nop_terminated(x) && (forall|i: int| 0 <= i < x.len() ==> wf_section(#[trigger] x[i]))
                && #[trigger] occurs_at(enc_sections(x), b@, pos as int) ==> (r matches Ok((s, n))
                && enc_sections(s@) == enc_sections(x)),
{
    let total = b.len();
    let mut acc: Vec<Section> = Vec::new();
    let mut p: usize = pos;
    proof {
        assert(enc_sections(acc@) =~= Seq::<u8>::empty());
        lemma_occurs_empty(b@, pos as int);
    }
    loop
        invariant
            total == b@.len(),
            p == pos + enc_sections(acc@).len(),
            occurs_at(enc_sections(acc@), b@, pos as int),
            forall|i: int| 0 <= i < acc@.len() ==> #[trigger] acc@[i] != Section::NOP,
            forall|i: int| 0 <= i < acc@.len() ==> wf_section(#[trigger] acc@[i]),
            forall|x: Seq<Section>|
                nop_terminated(x) && (forall|i: int| 0 <= i < x.len() ==> wf_section(#[trigger] x[i]))
                    && #[trigger] occurs_at(enc_sections(x), b@, pos as int) ==> acc@.len() < x.len()
                    && enc_sections(x.take(acc@.len() as int)) == enc_sections(acc@),
        decreases total - p,
    {
        let ghost k = acc@.len() as int;
        proof {
            assert forall|x: Seq<Section>|
                nop_terminated(x) && (forall|i: int| 0 <= i < x.len() ==> wf_section(#[trigger] x[i]))
                    && #[trigger] occurs_at(enc_sections(x), b@, pos as int) implies occurs_at(
                enc_section(x[k]),
                b@,
                p as int,
            ) && wf_section(x[k]) by {
                lemma_sections_at(x, k, b@, pos as int);
            }
        }
        match decode_section(b, p) {
            None => {
                proof {
                    assert forall|x: Section| wf_section(x) implies !#[trigger] occurs_at(
                        enc_section(x),
                        b@,
                        p as int,
                    ) by {}
                    assert((forall|i: int|
                        0 <= i < acc@.len() ==> wf_section(#[trigger] acc@[i]) && acc@[i]
                            != Section::NOP) && occurs_at(enc_sections(acc@), b@, pos as int) && p
                        == pos + enc_sections(acc@).len());
                }
                return Err(p);
            },
            Some((y, n)) => {
                let is_nop = match y {
                    Section::NOP => true,
                    _ => false,
                };
                let ghost prev = acc@;
                acc.push(y);
                proof {
                    assert(acc@.drop_last() =~= prev);
                    lemma_occurs_concat(enc_sections(prev), enc_section(y), b@, pos as int);
                    lemma_occurs_bounds(enc_section(y), b@, p as int);
                    assert forall|x: Seq<Section>|
                        nop_terminated(x) && (forall|i: int|
                            0 <= i < x.len() ==> wf_section(#[trigger] x[i])) && #[trigger] occurs_at(
                            enc_sections(x),
                            b@,
                            pos as int,
                        ) implies enc_sections(x.take(k + 1)) == enc_sections(acc@) && (is_nop
                        <==> k + 1 == x.len()) by {
                        lemma_sections_at(x, k, b@, pos as int);
                        assert(x.take(k + 1).drop_last() =~= x.take(k));
                        assert(enc_section(y) == enc_section(x[k]));
                        assert(enc_section(y)[0] == enc_section(x[k])[0]);
                    }
                }
                p = n;
                if is_nop {
                    proof {
                        assert forall|x: Seq<Section>|
                            nop_terminated(x) && (forall|i: int|
                                0 <= i < x.len() ==> wf_section(#[trigger] x[i])) && #[trigger] occurs_at(
                                enc_sections(x),
                                b@,
                                pos as int,
                            ) implies enc_sections(acc@) == enc_sections(x) by {
                            assert(x.take(k + 1) =~= x);
                        }
                    }
                    return Ok((acc, p));
                }
            },
        }
    }
}

/// Appends the bytes of a record list.
pub fn encode_sections(s: &Vec<Section>, out: &mut Vec<u8>)
    requires
        forall|i: int| 0 <= i < s@.len() ==> wf_section(#[trigger] s@[i]),
    ensures
        final(out)@ == old(out)@ + enc_sections(s@),
{
    let mut i: usize = 0;
    while i < s.len()
        invariant
            i <= s@.len(),
            forall|j: int| 0 <= j < s@.len() ==> wf_section(#[trigger] s@[j]),
            out@ == old(out)@ + enc_sections(s@.take(i as int)),
        decreases s@.len() - i,
    {
        encode_section(&s[i], out);
        proof {
            assert(s@.take(i + 1).drop_last() =~= s@.take(i as int));
        }
        i = i + 1;
        assert(out@ =~= old(out)@ + enc_sections(s@.take(i as int)));
    }
    assert(s@.take(s@.len() as int) =~= s@);
}

/// The names of the symbols the records export, in their order: the non-empty
/// name of each `XDEF` and each `XBSS`; imports (`XREF`) are not among them,
/// nor is an empty name.
pub open spec fn obj_exports(s: Seq<Section>) -> Seq<Seq<char>>
    decreases s.len(),
{
    if s.len() == 0 {
        Seq::empty()
    } else {
        let rest = obj_exports(s.drop_last());
        match s.last() {
            Section::XDEF(x) => if x.symbol_name@.len() > 0 {
                rest.push(utf8_lossy(x.symbol_name@))
            } else {
                rest
            },
            Section::XBSS(x) => if x.name@.len() > 0 {
                rest.push(utf8_lossy(x.name@))
            } else {
                rest
            },
            _ => rest,
        }
    }
}

impl OBJ {
    /// The names of the symbols this object file exports, in record order.
    pub fn exports(&self) -> (r: Vec<String>)
        ensures
            r@.map_values(|x: String| x@) == obj_exports(self.sections@),
            forall|i: int| 0 <= i < r@.len() ==> #[trigger] r@[i]@.len() > 0,
    {
        let mut r: Vec<String> = Vec::new();
        let mut i: usize = 0;
        while i < self.sections.len()
            invariant
                i <= self.sections@.len(),
                r@.map_values(|x: String| x@) == obj_exports(self.sections@.take(i as int)),
                forall|k: int| 0 <= k < r@.len() ==> #[trigger] r@[k]@.len() > 0,
            decreases self.sections@.len() - i,
        {
            let ghost before = r@;
            proof {
                assert(self.sections@.take(i + 1).drop_last() =~= self.sections@.take(i as int));
            }
            match &self.sections[i] {
                Section::XDEF(x) => if x.symbol_name.len() > 0 {
                    let name = lossy_string(x.symbol_name.as_slice());
                    r.push(name);
                    assert(r@.map_values(|x: String| x@) =~= before.map_values(|x: String| x@).push(
                        utf8_lossy(x.symbol_name@),
                    ));
                },
                Section::XBSS(x) => if x.name.len() > 0 {
                    let name = lossy_string(x.name.as_slice());
                    r.push(name);
                    assert(r@.map_values(|x: String| x@) =~= before.map_values(|x: String| x@).push(
                        utf8_lossy(x.name@),
                    ));
                },
                _ => {},
            }
            i = i + 1;
        }
        assert(self.sections@.take(self.sections@.len() as int) =~= self.sections@);
        r
    }

    /// An object file of version 2 with the given records, the last of which
    /// must be a `NOP`.
    pub fn new(sections: Vec<Section>) -> (r: OBJ)
        requires
            sections@.len() >= 1,
            sections@.last() == Section::NOP,
        ensures
            r.version == 2,
            r.sections@ == sections@,
    {
        OBJ { version: 2, sections }
    }

    /// The format version (2 in the files seen).
    pub fn version(&self) -> (r: u8)
        ensures
            r == self.version,
    {
        self.version
    }

    /// The records, the last of which is the `NOP`.
    pub fn sections(&self) -> (r: &Vec<Section>)
        ensures
            r@ == self.sections@,
    {
        &self.sections
    }
}

/// Reads the object file that starts at `pos`.
pub fn decode_obj(b: &[u8], pos: usize) -> (r: Option<(OBJ, usize)>)
    ensures
        r matches Some((o, n)) ==> wf_obj(o) && n == pos + enc_obj(o).len() && occurs_at(
            enc_obj(o),
            b@,
            pos as int,
        ),
        forall|x: OBJ|
            wf_obj(x) && #[trigger] occurs_at(enc_obj(x), b@, pos as int) ==> (r matches Some((o, n))
                && enc_obj(o) == enc_obj(x)),
{
    match decode_obj_detail(b, pos) {
        Ok(p) => Some(p),
        Err(_) => None,
    }
}

/// Why an object file could not be read at a place.
pub enum ObjFailure {
    /// Fewer bytes than the magic and the version.
    Short,
    /// The first three bytes are not `LNK`.
    Magic,
    /// No record could be read at this offset.
    Record(usize),
}

/// Reads the object file that starts at `pos`, saying why where it cannot.
pub fn decode_obj_detail(b: &[u8], pos: usize) -> (r: Result<(OBJ, usize), ObjFailure>)
    ensures
        r matches Ok((o, n)) ==> wf_obj(o) && n == pos + enc_obj(o).len() && occurs_at(
            enc_obj(o),
            b@,
            pos as int,
        ),
        forall|x: OBJ|
            wf_obj(x) && #[trigger] occurs_at(enc_obj(x), b@, pos as int) ==> (r matches Ok((o, n))
                && enc_obj(o) == enc_obj(x)),
        r matches Err(ObjFailure::Magic) <==> (pos + 3 <= b@.len() && b@.subrange(
            pos as int,
            pos + 3,
        ) != obj_magic()),
        r matches Err(ObjFailure::Record(at)) ==> pos + 4 <= b@.len() && b@.subrange(
            pos as int,
            pos + 3,
        ) == obj_magic() && records_fail_at(b@, pos + 4, at as int),
        r matches Err(ObjFailure::Short) <==> (pos + 4 > b@.len() && !(pos + 3 <= b@.len()
            && b@.subrange(pos as int, pos + 3) != obj_magic())),
{
    let total = b.len();
    if pos > total || total - pos < 3 {
        proof {
            assert forall|x: OBJ| wf_obj(x) && #[trigger] occurs_at(enc_obj(x), b@, pos as int) implies false by {
                lemma_occurs_bounds(enc_obj(x), b@, pos as int);
            }
        }
        return Err(ObjFailure::Short);
    }
    if !(b[pos] == 76 && b[pos + 1] == 78 && b[pos + 2] == 75) {
        proof {
            assert(b@.subrange(pos as int, pos + 3)[0] == b@[pos as int]);
            assert(b@.subrange(pos as int, pos + 3)[1] == b@[pos + 1]);
            assert(b@.subrange(pos as int, pos + 3)[2] == b@[pos + 2]);
            assert forall|x: OBJ| wf_obj(x) && #[trigger] occurs_at(enc_obj(x), b@, pos as int) implies false by {
                lemma_obj_parts(x, b@, pos as int);
            }
        }
        return Err(ObjFailure::Magic);
    }
    proof {
        assert(b@.subrange(pos as int, pos + 3) =~= obj_magic());
    }
    let version = match read_u8(b, pos + 3) {
        Some(v) => v,
        None => {
            proof {
                assert forall|x: OBJ| wf_obj(x) && #[trigger] occurs_at(enc_obj(x), b@, pos as int) implies false by {
                    lemma_obj_parts(x, b@, pos as int);
                }
            }
            return Err(ObjFailure::Short);
        },
    };
    proof {
        assert forall|x: OBJ| wf_obj(x) && #[trigger] occurs_at(enc_obj(x), b@, pos as int) implies x.version == version && occurs_at(
            enc_sections(x.sections@),
            b@,
            pos + 4,
        ) by {
            lemma_obj_parts(x, b@, pos as int);
        }
    }
    match decode_sections(b, pos + 4) {
        Err(at) => Err(ObjFailure::Record(at)),
        Ok((sections, n)) => {
            let o = OBJ { version, sections };
            proof {
                lemma_obj_parts(o, b@, pos as int);
                lemma_occurs_magic(b@, pos as int);
                assert(seq![version] =~= b@.subrange(pos + 3, pos + 4));
                lemma_occurs_exact(seq![version], b@, pos + 3);
            }
            Ok((o, n))
        },
    }
}

/// How the bytes of an object file lie.
proof fn lemma_obj_parts(x: OBJ, b: Seq<u8>, pos: int)
    ensures
        occurs_at(enc_obj(x), b, pos) <==> (occurs_at(obj_magic(), b, pos) && occurs_at(
            seq![x.version],
            b,
            pos + 3,
        ) && occurs_at(enc_sections(x.sections@), b, pos + 4)),
        occurs_at(obj_magic(), b, pos) ==> b.subrange(pos, pos + 3) == obj_magic(),
        occurs_at(seq![x.version], b, pos + 3) ==> b[pos + 3] == x.version,
{
    lemma_occurs_concat(obj_magic() + seq![x.version], enc_sections(x.sections@), b, pos);
    lemma_occurs_concat(obj_magic(), seq![x.version], b, pos);
    lemma_occurs_exact(obj_magic(), b, pos);
    lemma_occurs_exact(seq![x.version], b, pos + 3);
    if occurs_at(seq![x.version], b, pos + 3) {
        lemma_occurs_bounds(seq![x.version], b, pos + 3);
        assert(b.subrange(pos + 3, pos + 4)[0] == b[pos + 3]);
    }
}

proof fn lemma_occurs_magic(b: Seq<u8>, pos: int)
    requires
        0 <= pos && pos + 3 <= b.len(),
        b.subrange(pos, pos + 3) == obj_magic(),
    ensures
        occurs_at(obj_magic(), b, pos),
{
    lemma_occurs_exact(obj_magic(), b, pos);
}

/// Appends the bytes of an object file.
pub fn encode_obj(o: &OBJ, out: &mut Vec<u8>)
    requires
        wf_obj(*o),
    ensures
        final(out)@ == old(out)@ + enc_obj(*o),
{
    write_u8(out, 76);
    write_u8(out, 78);
    write_u8(out, 75);
    write_u8(out, o.version);
    encode_sections(&o.sections, out);
    assert(out@ =~= old(out)@ + enc_obj(*o));
}

} // verus!
