//! The records of an object file. Each is a tag byte and a payload whose shape
//! the tag alone decides; no record states its own length.
use vstd::prelude::*;

use crate::bytes::{le16, le32, occurs_at, pstr, pstr16, lemma_occurs_concat, lemma_occurs_empty, lemma_occurs_cons, read_u8, read_u16, read_u32, read_i32, read_pstr, read_pstr16, write_u8, write_u16, write_u32, write_pstr, write_pstr16};
use crate::expression::{Expression, enc_expr, decode_expression, encode_expression};
use crate::text::{lossy_string, utf8_lossy};

verus! {

/// The dimensions of a definition: none, or one value.
#[derive(Clone, Debug, PartialEq, Eq)]
pub enum Dim {
    Absent,
    Value(u32),
}

/// The bytes of `d` on disk: a 16-bit count, then the value if there is one.
pub open spec fn enc_dim(d: Dim) -> Seq<u8> {
    match d {
        Dim::Absent => le16(0),
        Dim::Value(v) => le16(1) + le32(v),
    }
}

/// Reads the dimensions that start at `pos`.
pub fn decode_dim(b: &[u8], pos: usize) -> (r: Option<(Dim, usize)>)
    ensures
        r matches Some((d, n)) ==> n == pos + enc_dim(d).len() && occurs_at(enc_dim(d), b@, pos as int),
        forall|d: Dim| #[trigger] occurs_at(enc_dim(d), b@, pos as int) ==> r == Some((d, (pos + enc_dim(d).len()) as usize)),
{
    let total = b.len();
    let k = match read_u16(b, pos) {
        Some(k) => k,
        None => {
            proof {
                assert forall|d: Dim| #[trigger] occurs_at(enc_dim(d), b@, pos as int) implies false by {
                    if let Dim::Value(v) = d {
                        lemma_occurs_concat(le16(1), le32(v), b@, pos as int);
                    }
                }
            }
            return None;
        },
    };
    if k == 0 {
        proof {
            assert forall|d: Dim| #[trigger] occurs_at(enc_dim(d), b@, pos as int) implies d == Dim::Absent by {
                if let Dim::Value(v) = d {
                    lemma_occurs_concat(le16(1), le32(v), b@, pos as int);
                }
            }
        }
        Some((Dim::Absent, pos + 2))
    } else if k == 1 {
        match read_u32(b, pos + 2) {
            Some(v) => {
                proof {
                    lemma_occurs_concat(le16(1), le32(v), b@, pos as int);
                    assert forall|d: Dim| #[trigger] occurs_at(enc_dim(d), b@, pos as int) implies d == Dim::Value(v) by {
                        if let Dim::Value(u) = d {
                            lemma_occurs_concat(le16(1), le32(u), b@, pos as int);
                        }
                    }
                }
                Some((Dim::Value(v), pos + 6))
            },
            None => {
                proof {
                    assert forall|d: Dim| #[trigger] occurs_at(enc_dim(d), b@, pos as int) implies false by {
                        if let Dim::Value(u) = d {
                            lemma_occurs_concat(le16(1), le32(u), b@, pos as int);
                        }
                    }
                }
                None
            },
        }
    } else {
        proof {
            assert forall|d: Dim| #[trigger] occurs_at(enc_dim(d), b@, pos as int) implies false by {
                if let Dim::Value(u) = d {
                    lemma_occurs_concat(le16(1), le32(u), b@, pos as int);
                }
            }
        }
        None
    }
}

/// Appends the bytes of `d`.
pub fn encode_dim(d: &Dim, out: &mut Vec<u8>)
    ensures
        final(out)@ == old(out)@ + enc_dim(*d),
{
    match d {
        Dim::Absent => write_u16(out, 0),
        Dim::Value(v) => {
            write_u16(out, 1);
            write_u32(out, *v);
            assert(out@ =~= old(out)@ + enc_dim(*d));
        },
    }
}

/// Machine code for the target processor.
#[derive(Clone, Debug, PartialEq, Eq)]
pub struct Code {
    pub code: Vec<u8>,
}

/// The bytes of a `Code` on disk: its fields in order.
pub open spec fn enc_code(x: Code) -> Seq<u8> {
    pstr16(x.code@)
}

/// Every byte string of a `Code` fits its length prefix.
pub open spec fn wf_code(x: Code) -> bool {
    x.code@.len() <= 65535
}

/// Appends the bytes of `x`.
pub fn encode_code(x: &Code, out: &mut Vec<u8>)
    requires
        wf_code(*x),
    ensures
        final(out)@ == old(out)@ + enc_code(*x),
{
    write_pstr16(out, x.code.as_slice());
    assert(out@ =~= old(out)@ + enc_code(*x));
}

/// Reads the `Code` that starts at `pos`.
pub fn decode_code(b: &[u8], pos: usize) -> (r: Option<(Code, usize)>)
    ensures
        r matches Some((y, n)) ==> wf_code(y) && n == pos + enc_code(y).len() && occurs_at(enc_code(y), b@, pos as int),
        forall|x: Code| wf_code(x) && #[trigger] occurs_at(enc_code(x), b@, pos as int) ==> (r matches Some((y, n)) && enc_code(y) == enc_code(x)),
{
    let total = b.len();
    let (code, at1) = match read_pstr16(b, pos) {
        Some(v) => v,
        None => {
            proof {
                assert forall|x: Code| wf_code(x) && #[trigger] occurs_at(enc_code(x), b@, pos as int) implies false by {
                    
                }
            }
            return None;
        },
    };
    let y = Code { code };
    proof {
    }
    Some((y, at1))
}

/// A relocation: how (`tag`) and where (`offset` in the current section) the value of `expression` is written.
#[derive(Clone, Debug, PartialEq, Eq)]
pub struct Patch {
    pub tag: u8,
    pub offset: u16,
    pub expression: Expression,
}

/// The bytes of a `Patch` on disk: its fields in order.
pub open spec fn enc_patch(x: Patch) -> Seq<u8> {
    seq![x.tag] + le16(x.offset) + enc_expr(x.expression)
}

/// Every byte string of a `Patch` fits its length prefix.
pub open spec fn wf_patch(x: Patch) -> bool {
    true
}

proof fn lemma_split_patch(x: Patch, b: Seq<u8>, pos: int)
    ensures
        occurs_at(enc_patch(x), b, pos) <==> (
            occurs_at(seq![x.tag], b, pos)
            && occurs_at(le16(x.offset), b, pos + seq![x.tag].len())
            && occurs_at(enc_expr(x.expression), b, pos + seq![x.tag].len() + le16(x.offset).len())
        ),
{
    lemma_occurs_concat(seq![x.tag] + le16(x.offset), enc_expr(x.expression), b, pos);
    lemma_occurs_concat(seq![x.tag], le16(x.offset), b, pos);
}

/// Appends the bytes of `x`.
pub fn encode_patch(x: &Patch, out: &mut Vec<u8>)
    requires
        wf_patch(*x),
    ensures
        final(out)@ == old(out)@ + enc_patch(*x),
{
    write_u8(out, x.tag);
    write_u16(out, x.offset);
    encode_expression(&x.expression, out);
    assert(out@ =~= old(out)@ + enc_patch(*x));
}

/// Reads the `Patch` that starts at `pos`.
pub fn decode_patch(b: &[u8], pos: usize) -> (r: Option<(Patch, usize)>)
    ensures
        r matches Some((y, n)) ==> wf_patch(y) && n == pos + enc_patch(y).len() && occurs_at(enc_patch(y), b@, pos as int),
        forall|x: Patch| wf_patch(x) && #[trigger] occurs_at(enc_patch(x), b@, pos as int) ==> (r matches Some((y, n)) && enc_patch(y) == enc_patch(x)),
{
    let total = b.len();
    let tag = match read_u8(b, pos) {
        Some(v) => v,
        None => {
            proof {
                assert forall|x: Patch| wf_patch(x) && #[trigger] occurs_at(enc_patch(x), b@, pos as int) implies false by {
                    lemma_split_patch(x, b@, pos as int);
                }
            }
            return None;
        },
    };
    let at1 = pos + 1;
    let offset = match read_u16(b, at1) {
        Some(v) => v,
        None => {
            proof {
                assert forall|x: Patch| wf_patch(x) && #[trigger] occurs_at(enc_patch(x), b@, pos as int) implies false by {
                    lemma_split_patch(x, b@, pos as int);
                }
            }
            return None;
        },
    };
    let at2 = at1 + 2;
    let (expression, at3) = match decode_expression(b, at2) {
        Some(v) => v,
        None => {
            proof {
                assert forall|x: Patch| wf_patch(x) && #[trigger] occurs_at(enc_patch(x), b@, pos as int) implies false by {
                    lemma_split_patch(x, b@, pos as int);
                }
            }
            return None;
        },
    };
    let y = Patch { tag, offset, expression };
    proof {
        lemma_split_patch(y, b@, pos as int);
        assert forall|x: Patch| wf_patch(x) && #[trigger] occurs_at(enc_patch(x), b@, pos as int) implies enc_patch(x) == enc_patch(y) by {
            lemma_split_patch(x, b@, pos as int);
        }
    }
    Some((y, at3))
}

/// A section's header: its number, group, alignment and type name.
#[derive(Clone, Debug, PartialEq, Eq)]
pub struct LNKHeader {
    pub section: u16,
    pub group: u16,
    pub align: u8,
    pub kind_name: Vec<u8>,
}

/// The bytes of a `LNKHeader` on disk: its fields in order.
pub open spec fn enc_lnk_header(x: LNKHeader) -> Seq<u8> {
    le16(x.section) + le16(x.group) + seq![x.align] + pstr(x.kind_name@)
}

/// Every byte string of a `LNKHeader` fits its length prefix.
pub open spec fn wf_lnk_header(x: LNKHeader) -> bool {
    x.kind_name@.len() <= 255
}

proof fn lemma_split_lnk_header(x: LNKHeader, b: Seq<u8>, pos: int)
    ensures
        occurs_at(enc_lnk_header(x), b, pos) <==> (
            occurs_at(le16(x.section), b, pos)
            && occurs_at(le16(x.group), b, pos + le16(x.section).len())
            && occurs_at(seq![x.align], b, pos + le16(x.section).len() + le16(x.group).len())
            && occurs_at(pstr(x.kind_name@), b, pos + le16(x.section).len() + le16(x.group).len() + seq![x.align].len())
        ),
{
    lemma_occurs_concat(le16(x.section) + le16(x.group) + seq![x.align], pstr(x.kind_name@), b, pos);
    lemma_occurs_concat(le16(x.section) + le16(x.group), seq![x.align], b, pos);
    lemma_occurs_concat(le16(x.section), le16(x.group), b, pos);
}

/// Appends the bytes of `x`.
pub fn encode_lnk_header(x: &LNKHeader, out: &mut Vec<u8>)
    requires
        wf_lnk_header(*x),
    ensures
        final(out)@ == old(out)@ + enc_lnk_header(*x),
{
    write_u16(out, x.section);
    write_u16(out, x.group);
    write_u8(out, x.align);
    write_pstr(out, x.kind_name.as_slice());
    assert(out@ =~= old(out)@ + enc_lnk_header(*x));
}

/// Reads the `LNKHeader` that starts at `pos`.
pub fn decode_lnk_header(b: &[u8], pos: usize) -> (r: Option<(LNKHeader, usize)>)
    ensures
        r matches Some((y, n)) ==> wf_lnk_header(y) && n == pos + enc_lnk_header(y).len() && occurs_at(enc_lnk_header(y), b@, pos as int),
        forall|x: LNKHeader| wf_lnk_header(x) && #[trigger] occurs_at(enc_lnk_header(x), b@, pos as int) ==> (r matches Some((y, n)) && enc_lnk_header(y) == enc_lnk_header(x)),
{
    let total = b.len();
    let section = match read_u16(b, pos) {
        Some(v) => v,
        None => {
            proof {
                assert forall|x: LNKHeader| wf_lnk_header(x) && #[trigger] occurs_at(enc_lnk_header(x), b@, pos as int) implies false by {
                    lemma_split_lnk_header(x, b@, pos as int);
                }
            }
            return None;
        },
    };
    let at1 = pos + 2;
    let group = match read_u16(b, at1) {
        Some(v) => v,
        None => {
            proof {
                assert forall|x: LNKHeader| wf_lnk_header(x) && #[trigger] occurs_at(enc_lnk_header(x), b@, pos as int) implies false by {
                    lemma_split_lnk_header(x, b@, pos as int);
                }
            }
            return None;
        },
    };
    let at2 = at1 + 2;
    let align = match read_u8(b, at2) {
        Some(v) => v,
        None => {
            proof {
                assert forall|x: LNKHeader| wf_lnk_header(x) && #[trigger] occurs_at(enc_lnk_header(x), b@, pos as int) implies false by {
                    lemma_split_lnk_header(x, b@, pos as int);
                }
            }
            return None;
        },
    };
    let at3 = at2 + 1;
    let (kind_name, at4) = match read_pstr(b, at3) {
        Some(v) => v,
        None => {
            proof {
                assert forall|x: LNKHeader| wf_lnk_header(x) && #[trigger] occurs_at(enc_lnk_header(x), b@, pos as int) implies false by {
                    lemma_split_lnk_header(x, b@, pos as int);
                }
            }
            return None;
        },
    };
    let y = LNKHeader { section, group, align, kind_name };
    proof {
        lemma_split_lnk_header(y, b@, pos as int);
        assert forall|x: LNKHeader| wf_lnk_header(x) && #[trigger] occurs_at(enc_lnk_header(x), b@, pos as int) implies enc_lnk_header(x) == enc_lnk_header(y) by {
            lemma_split_lnk_header(x, b@, pos as int);
        }
    }
    Some((y, at4))
}

/// A symbol local to the object, at an offset in a section.
#[derive(Clone, Debug, PartialEq, Eq)]
pub struct LocalSymbol {
    pub section: u16,
    pub offset: u32,
    pub name: Vec<u8>,
}

/// The bytes of a `LocalSymbol` on disk: its fields in order.
pub open spec fn enc_local_symbol(x: LocalSymbol) -> Seq<u8> {
    le16(x.section) + le32(x.offset) + pstr(x.name@)
}

/// Every byte string of a `LocalSymbol` fits its length prefix.
pub open spec fn wf_local_symbol(x: LocalSymbol) -> bool {
    x.name@.len() <= 255
}

proof fn lemma_split_local_symbol(x: LocalSymbol, b: Seq<u8>, pos: int)
    ensures
        occurs_at(enc_local_symbol(x), b, pos) <==> (
            occurs_at(le16(x.section), b, pos)
            && occurs_at(le32(x.offset), b, pos + le16(x.section).len())
            && occurs_at(pstr(x.name@), b, pos + le16(x.section).len() + le32(x.offset).len())
        ),
{
    lemma_occurs_concat(le16(x.section) + le32(x.offset), pstr(x.name@), b, pos);
    lemma_occurs_concat(le16(x.section), le32(x.offset), b, pos);
}

/// Appends the bytes of `x`.
pub fn encode_local_symbol(x: &LocalSymbol, out: &mut Vec<u8>)
    requires
        wf_local_symbol(*x),
    ensures
        final(out)@ == old(out)@ + enc_local_symbol(*x),
{
    write_u16(out, x.section);
    write_u32(out, x.offset);
    write_pstr(out, x.name.as_slice());
    assert(out@ =~= old(out)@ + enc_local_symbol(*x));
}

/// Reads the `LocalSymbol` that starts at `pos`.
pub fn decode_local_symbol(b: &[u8], pos: usize) -> (r: Option<(LocalSymbol, usize)>)
    ensures
        r matches Some((y, n)) ==> wf_local_symbol(y) && n == pos + enc_local_symbol(y).len() && occurs_at(enc_local_symbol(y), b@, pos as int),
        forall|x: LocalSymbol| wf_local_symbol(x) && #[trigger] occurs_at(enc_local_symbol(x), b@, pos as int) ==> (r matches Some((y, n)) && enc_local_symbol(y) == enc_local_symbol(x)),
{
    let total = b.len();
    let section = match read_u16(b, pos) {
        Some(v) => v,
        None => {
            proof {
                assert forall|x: LocalSymbol| wf_local_symbol(x) && #[trigger] occurs_at(enc_local_symbol(x), b@, pos as int) implies false by {
                    lemma_split_local_symbol(x, b@, pos as int);
                }
            }
            return None;
        },
    };
    let at1 = pos + 2;
    let offset = match read_u32(b, at1) {
        Some(v) => v,
        None => {
            proof {
                assert forall|x: LocalSymbol| wf_local_symbol(x) && #[trigger] occurs_at(enc_local_symbol(x), b@, pos as int) implies false by {
                    lemma_split_local_symbol(x, b@, pos as int);
                }
            }
            return None;
        },
    };
    let at2 = at1 + 4;
    let (name, at3) = match read_pstr(b, at2) {
        Some(v) => v,
        None => {
            proof {
                assert forall|x: LocalSymbol| wf_local_symbol(x) && #[trigger] occurs_at(enc_local_symbol(x), b@, pos as int) implies false by {
                    lemma_split_local_symbol(x, b@, pos as int);
                }
            }
            return None;
        },
    };
    let y = LocalSymbol { section, offset, name };
    proof {
        lemma_split_local_symbol(y, b@, pos as int);
        assert forall|x: LocalSymbol| wf_local_symbol(x) && #[trigger] occurs_at(enc_local_symbol(x), b@, pos as int) implies enc_local_symbol(x) == enc_local_symbol(y) by {
            lemma_split_local_symbol(x, b@, pos as int);
        }
    }
    Some((y, at3))
}

/// A group symbol.
#[derive(Clone, Debug, PartialEq, Eq)]
pub struct GroupSymbol {
    pub number: u16,
    pub sym_type: u8,
    pub name: Vec<u8>,
}

/// The bytes of a `GroupSymbol` on disk: its fields in order.
pub open spec fn enc_group_symbol(x: GroupSymbol) -> Seq<u8> {
    le16(x.number) + seq![x.sym_type] + pstr(x.name@)
}

/// Every byte string of a `GroupSymbol` fits its length prefix.
pub open spec fn wf_group_symbol(x: GroupSymbol) -> bool {
    x.name@.len() <= 255
}

proof fn lemma_split_group_symbol(x: GroupSymbol, b: Seq<u8>, pos: int)
    ensures
        occurs_at(enc_group_symbol(x), b, pos) <==> (
            occurs_at(le16(x.number), b, pos)
            && occurs_at(seq![x.sym_type], b, pos + le16(x.number).len())
            && occurs_at(pstr(x.name@), b, pos + le16(x.number).len() + seq![x.sym_type].len())
        ),
{
    lemma_occurs_concat(le16(x.number) + seq![x.sym_type], pstr(x.name@), b, pos);
    lemma_occurs_concat(le16(x.number), seq![x.sym_type], b, pos);
}

/// Appends the bytes of `x`.
pub fn encode_group_symbol(x: &GroupSymbol, out: &mut Vec<u8>)
    requires
        wf_group_symbol(*x),
    ensures
        final(out)@ == old(out)@ + enc_group_symbol(*x),
{
    write_u16(out, x.number);
    write_u8(out, x.sym_type);
    write_pstr(out, x.name.as_slice());
    assert(out@ =~= old(out)@ + enc_group_symbol(*x));
}

/// Reads the `GroupSymbol` that starts at `pos`.
pub fn decode_group_symbol(b: &[u8], pos: usize) -> (r: Option<(GroupSymbol, usize)>)
    ensures
        r matches Some((y, n)) ==> wf_group_symbol(y) && n == pos + enc_group_symbol(y).len() && occurs_at(enc_group_symbol(y), b@, pos as int),
        forall|x: GroupSymbol| wf_group_symbol(x) && #[trigger] occurs_at(enc_group_symbol(x), b@, pos as int) ==> (r matches Some((y, n)) && enc_group_symbol(y) == enc_group_symbol(x)),
{
    let total = b.len();
    let number = match read_u16(b, pos) {
        Some(v) => v,
        None => {
            proof {
                assert forall|x: GroupSymbol| wf_group_symbol(x) && #[trigger] occurs_at(enc_group_symbol(x), b@, pos as int) implies false by {
                    lemma_split_group_symbol(x, b@, pos as int);
                }
            }
            return None;
        },
    };
    let at1 = pos + 2;
    let sym_type = match read_u8(b, at1) {
        Some(v) => v,
        None => {
            proof {
                assert forall|x: GroupSymbol| wf_group_symbol(x) && #[trigger] occurs_at(enc_group_symbol(x), b@, pos as int) implies false by {
                    lemma_split_group_symbol(x, b@, pos as int);
                }
            }
            return None;
        },
    };
    let at2 = at1 + 1;
    let (name, at3) = match read_pstr(b, at2) {
        Some(v) => v,
        None => {
            proof {
                assert forall|x: GroupSymbol| wf_group_symbol(x) && #[trigger] occurs_at(enc_group_symbol(x), b@, pos as int) implies false by {
                    lemma_split_group_symbol(x, b@, pos as int);
                }
            }
            return None;
        },
    };
    let y = GroupSymbol { number, sym_type, name };
    proof {
        lemma_split_group_symbol(y, b@, pos as int);
        assert forall|x: GroupSymbol| wf_group_symbol(x) && #[trigger] occurs_at(enc_group_symbol(x), b@, pos as int) implies enc_group_symbol(x) == enc_group_symbol(y) by {
            lemma_split_group_symbol(x, b@, pos as int);
        }
    }
    Some((y, at3))
}

/// A symbol this object defines for others, at an offset in a section.
#[derive(Clone, Debug, PartialEq, Eq)]
pub struct XDEF {
    pub number: u16,
    pub section: u16,
    pub offset: u32,
    pub symbol_name: Vec<u8>,
}

/// The bytes of a `XDEF` on disk: its fields in order.
pub open spec fn enc_xdef(x: XDEF) -> Seq<u8> {
    le16(x.number) + le16(x.section) + le32(x.offset) + pstr(x.symbol_name@)
}

/// Every byte string of a `XDEF` fits its length prefix.
pub open spec fn wf_xdef(x: XDEF) -> bool {
    x.symbol_name@.len() <= 255
}

proof fn lemma_split_xdef(x: XDEF, b: Seq<u8>, pos: int)
    ensures
        occurs_at(enc_xdef(x), b, pos) <==> (
            occurs_at(le16(x.number), b, pos)
            && occurs_at(le16(x.section), b, pos + le16(x.number).len())
            && occurs_at(le32(x.offset), b, pos + le16(x.number).len() + le16(x.section).len())
            && occurs_at(pstr(x.symbol_name@), b, pos + le16(x.number).len() + le16(x.section).len() + le32(x.offset).len())
        ),
{
    lemma_occurs_concat(le16(x.number) + le16(x.section) + le32(x.offset), pstr(x.symbol_name@), b, pos);
    lemma_occurs_concat(le16(x.number) + le16(x.section), le32(x.offset), b, pos);
    lemma_occurs_concat(le16(x.number), le16(x.section), b, pos);
}

/// Appends the bytes of `x`.
pub fn encode_xdef(x: &XDEF, out: &mut Vec<u8>)
    requires
        wf_xdef(*x),
    ensures
        final(out)@ == old(out)@ + enc_xdef(*x),
{
    write_u16(out, x.number);
    write_u16(out, x.section);
    write_u32(out, x.offset);
    write_pstr(out, x.symbol_name.as_slice());
    assert(out@ =~= old(out)@ + enc_xdef(*x));
}

/// Reads the `XDEF` that starts at `pos`.
pub fn decode_xdef(b: &[u8], pos: usize) -> (r: Option<(XDEF, usize)>)
    ensures
        r matches Some((y, n)) ==> wf_xdef(y) && n == pos + enc_xdef(y).len() && occurs_at(enc_xdef(y), b@, pos as int),
        forall|x: XDEF| wf_xdef(x) && #[trigger] occurs_at(enc_xdef(x), b@, pos as int) ==> (r matches Some((y, n)) && enc_xdef(y) == enc_xdef(x)),
{
    let total = b.len();
    let number = match read_u16(b, pos) {
        Some(v) => v,
        None => {
            proof {
                assert forall|x: XDEF| wf_xdef(x) && #[trigger] occurs_at(enc_xdef(x), b@, pos as int) implies false by {
                    lemma_split_xdef(x, b@, pos as int);
                }
            }
            return None;
        },
    };
    let at1 = pos + 2;
    let section = match read_u16(b, at1) {
        Some(v) => v,
        None => {
            proof {
                assert forall|x: XDEF| wf_xdef(x) && #[trigger] occurs_at(enc_xdef(x), b@, pos as int) implies false by {
                    lemma_split_xdef(x, b@, pos as int);
                }
            }
            return None;
        },
    };
    let at2 = at1 + 2;
    let offset = match read_u32(b, at2) {
        Some(v) => v,
        None => {
            proof {
                assert forall|x: XDEF| wf_xdef(x) && #[trigger] occurs_at(enc_xdef(x), b@, pos as int) implies false by {
                    lemma_split_xdef(x, b@, pos as int);
                }
            }
            return None;
        },
    };
    let at3 = at2 + 4;
    let (symbol_name, at4) = match read_pstr(b, at3) {
        Some(v) => v,
        None => {
            proof {
                assert forall|x: XDEF| wf_xdef(x) && #[trigger] occurs_at(enc_xdef(x), b@, pos as int) implies false by {
                    lemma_split_xdef(x, b@, pos as int);
                }
            }
            return None;
        },
    };
    let y = XDEF { number, section, offset, symbol_name };
    proof {
        lemma_split_xdef(y, b@, pos as int);
        assert forall|x: XDEF| wf_xdef(x) && #[trigger] occurs_at(enc_xdef(x), b@, pos as int) implies enc_xdef(x) == enc_xdef(y) by {
            lemma_split_xdef(x, b@, pos as int);
        }
    }
    Some((y, at4))
}

/// A symbol this object uses from others.
#[derive(Clone, Debug, PartialEq, Eq)]
pub struct XREF {
    pub number: u16,
    pub symbol_name: Vec<u8>,
}

/// The bytes of a `XREF` on disk: its fields in order.
pub open spec fn enc_xref(x: XREF) -> Seq<u8> {
    le16(x.number) + pstr(x.symbol_name@)
}

/// Every byte string of a `XREF` fits its length prefix.
pub open spec fn wf_xref(x: XREF) -> bool {
    x.symbol_name@.len() <= 255
}

proof fn lemma_split_xref(x: XREF, b: Seq<u8>, pos: int)
    ensures
        occurs_at(enc_xref(x), b, pos) <==> (
            occurs_at(le16(x.number), b, pos)
            && occurs_at(pstr(x.symbol_name@), b, pos + le16(x.number).len())
        ),
{
    lemma_occurs_concat(le16(x.number), pstr(x.symbol_name@), b, pos);
}

/// Appends the bytes of `x`.
pub fn encode_xref(x: &XREF, out: &mut Vec<u8>)
    requires
        wf_xref(*x),
    ensures
        final(out)@ == old(out)@ + enc_xref(*x),
{
    write_u16(out, x.number);
    write_pstr(out, x.symbol_name.as_slice());
    assert(out@ =~= old(out)@ + enc_xref(*x));
}

/// Reads the `XREF` that starts at `pos`.
pub fn decode_xref(b: &[u8], pos: usize) -> (r: Option<(XREF, usize)>)
    ensures
        r matches Some((y, n)) ==> wf_xref(y) && n == pos + enc_xref(y).len() && occurs_at(enc_xref(y), b@, pos as int),
        forall|x: XREF| wf_xref(x) && #[trigger] occurs_at(enc_xref(x), b@, pos as int) ==> (r matches Some((y, n)) && enc_xref(y) == enc_xref(x)),
{
    let total = b.len();
    let number = match read_u16(b, pos) {
        Some(v) => v,
        None => {
            proof {
                assert forall|x: XREF| wf_xref(x) && #[trigger] occurs_at(enc_xref(x), b@, pos as int) implies false by {
                    lemma_split_xref(x, b@, pos as int);
                }
            }
            return None;
        },
    };
    let at1 = pos + 2;
    let (symbol_name, at2) = match read_pstr(b, at1) {
        Some(v) => v,
        None => {
            proof {
                assert forall|x: XREF| wf_xref(x) && #[trigger] occurs_at(enc_xref(x), b@, pos as int) implies false by {
                    lemma_split_xref(x, b@, pos as int);
                }
            }
            return None;
        },
    };
    let y = XREF { number, symbol_name };
    proof {
        lemma_split_xref(y, b@, pos as int);
        assert forall|x: XREF| wf_xref(x) && #[trigger] occurs_at(enc_xref(x), b@, pos as int) implies enc_xref(x) == enc_xref(y) by {
            lemma_split_xref(x, b@, pos as int);
        }
    }
    Some((y, at2))
}

/// A source file name and the number it is known by.
#[derive(Clone, Debug, PartialEq, Eq)]
pub struct Filename {
    pub number: u16,
    pub name: Vec<u8>,
}

/// The bytes of a `Filename` on disk: its fields in order.
pub open spec fn enc_filename(x: Filename) -> Seq<u8> {
    le16(x.number) + pstr(x.name@)
}

/// Every byte string of a `Filename` fits its length prefix.
pub open spec fn wf_filename(x: Filename) -> bool {
    x.name@.len() <= 255
}

proof fn lemma_split_filename(x: Filename, b: Seq<u8>, pos: int)
    ensures
        occurs_at(enc_filename(x), b, pos) <==> (
            occurs_at(le16(x.number), b, pos)
            && occurs_at(pstr(x.name@), b, pos + le16(x.number).len())
        ),
{
    lemma_occurs_concat(le16(x.number), pstr(x.name@), b, pos);
}

/// Appends the bytes of `x`.
pub fn encode_filename(x: &Filename, out: &mut Vec<u8>)
    requires
        wf_filename(*x),
    ensures
        final(out)@ == old(out)@ + enc_filename(*x),
{
    write_u16(out, x.number);
    write_pstr(out, x.name.as_slice());
    assert(out@ =~= old(out)@ + enc_filename(*x));
}

/// Reads the `Filename` that starts at `pos`.
pub fn decode_filename(b: &[u8], pos: usize) -> (r: Option<(Filename, usize)>)
    ensures
        r matches Some((y, n)) ==> wf_filename(y) && n == pos + enc_filename(y).len() && occurs_at(enc_filename(y), b@, pos as int),
        forall|x: Filename| wf_filename(x) && #[trigger] occurs_at(enc_filename(x), b@, pos as int) ==> (r matches Some((y, n)) && enc_filename(y) == enc_filename(x)),
{
    let total = b.len();
    let number = match read_u16(b, pos) {
        Some(v) => v,
        None => {
            proof {
                assert forall|x: Filename| wf_filename(x) && #[trigger] occurs_at(enc_filename(x), b@, pos as int) implies false by {
                    lemma_split_filename(x, b@, pos as int);
                }
            }
            return None;
        },
    };
    let at1 = pos + 2;
    let (name, at2) = match read_pstr(b, at1) {
        Some(v) => v,
        None => {
            proof {
                assert forall|x: Filename| wf_filename(x) && #[trigger] occurs_at(enc_filename(x), b@, pos as int) implies false by {
                    lemma_split_filename(x, b@, pos as int);
                }
            }
            return None;
        },
    };
    let y = Filename { number, name };
    proof {
        lemma_split_filename(y, b@, pos as int);
        assert forall|x: Filename| wf_filename(x) && #[trigger] occurs_at(enc_filename(x), b@, pos as int) implies enc_filename(x) == enc_filename(y) by {
            lemma_split_filename(x, b@, pos as int);
        }
    }
    Some((y, at2))
}

/// MX information at an offset.
#[derive(Clone, Debug, PartialEq, Eq)]
pub struct SetMXInfo {
    pub offset: u16,
    pub value: u8,
}

/// The bytes of a `SetMXInfo` on disk: its fields in order.
pub open spec fn enc_set_mx_info(x: SetMXInfo) -> Seq<u8> {
    le16(x.offset) + seq![x.value]
}

/// Every byte string of a `SetMXInfo` fits its length prefix.
pub open spec fn wf_set_mx_info(x: SetMXInfo) -> bool {
    true
}

proof fn lemma_split_set_mx_info(x: SetMXInfo, b: Seq<u8>, pos: int)
    ensures
        occurs_at(enc_set_mx_info(x), b, pos) <==> (
            occurs_at(le16(x.offset), b, pos)
            && occurs_at(seq![x.value], b, pos + le16(x.offset).len())
        ),
{
    lemma_occurs_concat(le16(x.offset), seq![x.value], b, pos);
}

/// Appends the bytes of `x`.
pub fn encode_set_mx_info(x: &SetMXInfo, out: &mut Vec<u8>)
    requires
        wf_set_mx_info(*x),
    ensures
        final(out)@ == old(out)@ + enc_set_mx_info(*x),
{
    write_u16(out, x.offset);
    write_u8(out, x.value);
    assert(out@ =~= old(out)@ + enc_set_mx_info(*x));
}

/// Reads the `SetMXInfo` that starts at `pos`.
pub fn decode_set_mx_info(b: &[u8], pos: usize) -> (r: Option<(SetMXInfo, usize)>)
    ensures
        r matches Some((y, n)) ==> wf_set_mx_info(y) && n == pos + enc_set_mx_info(y).len() && occurs_at(enc_set_mx_info(y), b@, pos as int),
        forall|x: SetMXInfo| wf_set_mx_info(x) && #[trigger] occurs_at(enc_set_mx_info(x), b@, pos as int) ==> (r matches Some((y, n)) && enc_set_mx_info(y) == enc_set_mx_info(x)),
{
    let total = b.len();
    let offset = match read_u16(b, pos) {
        Some(v) => v,
        None => {
            proof {
                assert forall|x: SetMXInfo| wf_set_mx_info(x) && #[trigger] occurs_at(enc_set_mx_info(x), b@, pos as int) implies false by {
                    lemma_split_set_mx_info(x, b@, pos as int);
                }
            }
            return None;
        },
    };
    let at1 = pos + 2;
    let value = match read_u8(b, at1) {
        Some(v) => v,
        None => {
            proof {
                assert forall|x: SetMXInfo| wf_set_mx_info(x) && #[trigger] occurs_at(enc_set_mx_info(x), b@, pos as int) implies false by {
                    lemma_split_set_mx_info(x, b@, pos as int);
                }
            }
            return None;
        },
    };
    let at2 = at1 + 1;
    let y = SetMXInfo { offset, value };
    proof {
        lemma_split_set_mx_info(y, b@, pos as int);
        assert forall|x: SetMXInfo| wf_set_mx_info(x) && #[trigger] occurs_at(enc_set_mx_info(x), b@, pos as int) implies enc_set_mx_info(x) == enc_set_mx_info(y) by {
            lemma_split_set_mx_info(x, b@, pos as int);
        }
    }
    Some((y, at2))
}

/// An uninitialised block this object defines for others.
#[derive(Clone, Debug, PartialEq, Eq)]
pub struct XBSS {
    pub number: u16,
    pub section: u16,
    pub size: u32,
    pub name: Vec<u8>,
}

/// The bytes of a `XBSS` on disk: its fields in order.
pub open spec fn enc_xbss(x: XBSS) -> Seq<u8> {
    le16(x.number) + le16(x.section) + le32(x.size) + pstr(x.name@)
}

/// Every byte string of a `XBSS` fits its length prefix.
pub open spec fn wf_xbss(x: XBSS) -> bool {
    x.name@.len() <= 255
}

proof fn lemma_split_xbss(x: XBSS, b: Seq<u8>, pos: int)
    ensures
        occurs_at(enc_xbss(x), b, pos) <==> (
            occurs_at(le16(x.number), b, pos)
            && occurs_at(le16(x.section), b, pos + le16(x.number).len())
            && occurs_at(le32(x.size), b, pos + le16(x.number).len() + le16(x.section).len())
            && occurs_at(pstr(x.name@), b, pos + le16(x.number).len() + le16(x.section).len() + le32(x.size).len())
        ),
{
    lemma_occurs_concat(le16(x.number) + le16(x.section) + le32(x.size), pstr(x.name@), b, pos);
    lemma_occurs_concat(le16(x.number) + le16(x.section), le32(x.size), b, pos);
    lemma_occurs_concat(le16(x.number), le16(x.section), b, pos);
}

/// Appends the bytes of `x`.
pub fn encode_xbss(x: &XBSS, out: &mut Vec<u8>)
    requires
        wf_xbss(*x),
    ensures
        final(out)@ == old(out)@ + enc_xbss(*x),
{
    write_u16(out, x.number);
    write_u16(out, x.section);
    write_u32(out, x.size);
    write_pstr(out, x.name.as_slice());
    assert(out@ =~= old(out)@ + enc_xbss(*x));
}

/// Reads the `XBSS` that starts at `pos`.
pub fn decode_xbss(b: &[u8], pos: usize) -> (r: Option<(XBSS, usize)>)
    ensures
        r matches Some((y, n)) ==> wf_xbss(y) && n == pos + enc_xbss(y).len() && occurs_at(enc_xbss(y), b@, pos as int),
        forall|x: XBSS| wf_xbss(x) && #[trigger] occurs_at(enc_xbss(x), b@, pos as int) ==> (r matches Some((y, n)) && enc_xbss(y) == enc_xbss(x)),
{
    let total = b.len();
    let number = match read_u16(b, pos) {
        Some(v) => v,
        None => {
            proof {
                assert forall|x: XBSS| wf_xbss(x) && #[trigger] occurs_at(enc_xbss(x), b@, pos as int) implies false by {
                    lemma_split_xbss(x, b@, pos as int);
                }
            }
            return None;
        },
    };
    let at1 = pos + 2;
    let section = match read_u16(b, at1) {
        Some(v) => v,
        None => {
            proof {
                assert forall|x: XBSS| wf_xbss(x) && #[trigger] occurs_at(enc_xbss(x), b@, pos as int) implies false by {
                    lemma_split_xbss(x, b@, pos as int);
                }
            }
            return None;
        },
    };
    let at2 = at1 + 2;
    let size = match read_u32(b, at2) {
        Some(v) => v,
        None => {
            proof {
                assert forall|x: XBSS| wf_xbss(x) && #[trigger] occurs_at(enc_xbss(x), b@, pos as int) implies false by {
                    lemma_split_xbss(x, b@, pos as int);
                }
            }
            return None;
        },
    };
    let at3 = at2 + 4;
    let (name, at4) = match read_pstr(b, at3) {
        Some(v) => v,
        None => {
            proof {
                assert forall|x: XBSS| wf_xbss(x) && #[trigger] occurs_at(enc_xbss(x), b@, pos as int) implies false by {
                    lemma_split_xbss(x, b@, pos as int);
                }
            }
            return None;
        },
    };
    let y = XBSS { number, section, size, name };
    proof {
        lemma_split_xbss(y, b@, pos as int);
        assert forall|x: XBSS| wf_xbss(x) && #[trigger] occurs_at(enc_xbss(x), b@, pos as int) implies enc_xbss(x) == enc_xbss(y) by {
            lemma_split_xbss(x, b@, pos as int);
        }
    }
    Some((y, at4))
}

/// Source line information: a line number at an offset.
#[derive(Clone, Debug, PartialEq, Eq)]
pub struct SetSLDLineNum {
    pub offset: u16,
    pub linenum: u32,
}

/// The bytes of a `SetSLDLineNum` on disk: its fields in order.
pub open spec fn enc_set_sld_line_num(x: SetSLDLineNum) -> Seq<u8> {
    le16(x.offset) + le32(x.linenum)
}

/// Every byte string of a `SetSLDLineNum` fits its length prefix.
pub open spec fn wf_set_sld_line_num(x: SetSLDLineNum) -> bool {
    true
}

proof fn lemma_split_set_sld_line_num(x: SetSLDLineNum, b: Seq<u8>, pos: int)
    ensures
        occurs_at(enc_set_sld_line_num(x), b, pos) <==> (
            occurs_at(le16(x.offset), b, pos)
            && occurs_at(le32(x.linenum), b, pos + le16(x.offset).len())
        ),
{
    lemma_occurs_concat(le16(x.offset), le32(x.linenum), b, pos);
}

/// Appends the bytes of `x`.
pub fn encode_set_sld_line_num(x: &SetSLDLineNum, out: &mut Vec<u8>)
    requires
        wf_set_sld_line_num(*x),
    ensures
        final(out)@ == old(out)@ + enc_set_sld_line_num(*x),
{
    write_u16(out, x.offset);
    write_u32(out, x.linenum);
    assert(out@ =~= old(out)@ + enc_set_sld_line_num(*x));
}

/// Reads the `SetSLDLineNum` that starts at `pos`.
pub fn decode_set_sld_line_num(b: &[u8], pos: usize) -> (r: Option<(SetSLDLineNum, usize)>)
    ensures
        r matches Some((y, n)) ==> wf_set_sld_line_num(y) && n == pos + enc_set_sld_line_num(y).len() && occurs_at(enc_set_sld_line_num(y), b@, pos as int),
        forall|x: SetSLDLineNum| wf_set_sld_line_num(x) && #[trigger] occurs_at(enc_set_sld_line_num(x), b@, pos as int) ==> (r matches Some((y, n)) && enc_set_sld_line_num(y) == enc_set_sld_line_num(x)),
{
    let total = b.len();
    let offset = match read_u16(b, pos) {
        Some(v) => v,
        None => {
            proof {
                assert forall|x: SetSLDLineNum| wf_set_sld_line_num(x) && #[trigger] occurs_at(enc_set_sld_line_num(x), b@, pos as int) implies false by {
                    lemma_split_set_sld_line_num(x, b@, pos as int);
                }
            }
            return None;
        },
    };
    let at1 = pos + 2;
    let linenum = match read_u32(b, at1) {
        Some(v) => v,
        None => {
            proof {
                assert forall|x: SetSLDLineNum| wf_set_sld_line_num(x) && #[trigger] occurs_at(enc_set_sld_line_num(x), b@, pos as int) implies false by {
                    lemma_split_set_sld_line_num(x, b@, pos as int);
                }
            }
            return None;
        },
    };
    let at2 = at1 + 4;
    let y = SetSLDLineNum { offset, linenum };
    proof {
        lemma_split_set_sld_line_num(y, b@, pos as int);
        assert forall|x: SetSLDLineNum| wf_set_sld_line_num(x) && #[trigger] occurs_at(enc_set_sld_line_num(x), b@, pos as int) implies enc_set_sld_line_num(x) == enc_set_sld_line_num(y) by {
            lemma_split_set_sld_line_num(x, b@, pos as int);
        }
    }
    Some((y, at2))
}

/// Source line information: a line number in a file at an offset.
#[derive(Clone, Debug, PartialEq, Eq)]
pub struct SetSLDLineNumFile {
    pub offset: u16,
    pub linenum: u32,
    pub file: u16,
}

/// The bytes of a `SetSLDLineNumFile` on disk: its fields in order.
pub open spec fn enc_set_sld_line_num_file(x: SetSLDLineNumFile) -> Seq<u8> {
    le16(x.offset) + le32(x.linenum) + le16(x.file)
}

/// Every byte string of a `SetSLDLineNumFile` fits its length prefix.
pub open spec fn wf_set_sld_line_num_file(x: SetSLDLineNumFile) -> bool {
    true
}

proof fn lemma_split_set_sld_line_num_file(x: SetSLDLineNumFile, b: Seq<u8>, pos: int)
    ensures
        occurs_at(enc_set_sld_line_num_file(x), b, pos) <==> (
            occurs_at(le16(x.offset), b, pos)
            && occurs_at(le32(x.linenum), b, pos + le16(x.offset).len())
            && occurs_at(le16(x.file), b, pos + le16(x.offset).len() + le32(x.linenum).len())
        ),
{
    lemma_occurs_concat(le16(x.offset) + le32(x.linenum), le16(x.file), b, pos);
    lemma_occurs_concat(le16(x.offset), le32(x.linenum), b, pos);
}

/// Appends the bytes of `x`.
pub fn encode_set_sld_line_num_file(x: &SetSLDLineNumFile, out: &mut Vec<u8>)
    requires
        wf_set_sld_line_num_file(*x),
    ensures
        final(out)@ == old(out)@ + enc_set_sld_line_num_file(*x),
{
    write_u16(out, x.offset);
    write_u32(out, x.linenum);
    write_u16(out, x.file);
    assert(out@ =~= old(out)@ + enc_set_sld_line_num_file(*x));
}

/// Reads the `SetSLDLineNumFile` that starts at `pos`.
pub fn decode_set_sld_line_num_file(b: &[u8], pos: usize) -> (r: Option<(SetSLDLineNumFile, usize)>)
    ensures
        r matches Some((y, n)) ==> wf_set_sld_line_num_file(y) && n == pos + enc_set_sld_line_num_file(y).len() && occurs_at(enc_set_sld_line_num_file(y), b@, pos as int),
        forall|x: SetSLDLineNumFile| wf_set_sld_line_num_file(x) && #[trigger] occurs_at(enc_set_sld_line_num_file(x), b@, pos as int) ==> (r matches Some((y, n)) && enc_set_sld_line_num_file(y) == enc_set_sld_line_num_file(x)),
{
    let total = b.len();
    let offset = match read_u16(b, pos) {
        Some(v) => v,
        None => {
            proof {
                assert forall|x: SetSLDLineNumFile| wf_set_sld_line_num_file(x) && #[trigger] occurs_at(enc_set_sld_line_num_file(x), b@, pos as int) implies false by {
                    lemma_split_set_sld_line_num_file(x, b@, pos as int);
                }
            }
            return None;
        },
    };
    let at1 = pos + 2;
    let linenum = match read_u32(b, at1) {
        Some(v) => v,
        None => {
            proof {
                assert forall|x: SetSLDLineNumFile| wf_set_sld_line_num_file(x) && #[trigger] occurs_at(enc_set_sld_line_num_file(x), b@, pos as int) implies false by {
                    lemma_split_set_sld_line_num_file(x, b@, pos as int);
                }
            }
            return None;
        },
    };
    let at2 = at1 + 4;
    let file = match read_u16(b, at2) {
        Some(v) => v,
        None => {
            proof {
                assert forall|x: SetSLDLineNumFile| wf_set_sld_line_num_file(x) && #[trigger] occurs_at(enc_set_sld_line_num_file(x), b@, pos as int) implies false by {
                    lemma_split_set_sld_line_num_file(x, b@, pos as int);
                }
            }
            return None;
        },
    };
    let at3 = at2 + 2;
    let y = SetSLDLineNumFile { offset, linenum, file };
    proof {
        lemma_split_set_sld_line_num_file(y, b@, pos as int);
        assert forall|x: SetSLDLineNumFile| wf_set_sld_line_num_file(x) && #[trigger] occurs_at(enc_set_sld_line_num_file(x), b@, pos as int) implies enc_set_sld_line_num_file(x) == enc_set_sld_line_num_file(y) by {
            lemma_split_set_sld_line_num_file(x, b@, pos as int);
        }
    }
    Some((y, at3))
}

/// A procedure call record; its layout is not confirmed, and it is never read.
#[derive(Clone, Debug, PartialEq, Eq)]
pub struct ProcedureCall {
    pub distance: u8,
    pub symbol: u16,
}

/// The bytes of a `ProcedureCall` on disk: its fields in order.
pub open spec fn enc_procedure_call(x: ProcedureCall) -> Seq<u8> {
    seq![x.distance] + le16(x.symbol)
}

/// Every byte string of a `ProcedureCall` fits its length prefix.
pub open spec fn wf_procedure_call(x: ProcedureCall) -> bool {
    true
}

proof fn lemma_split_procedure_call(x: ProcedureCall, b: Seq<u8>, pos: int)
    ensures
        occurs_at(enc_procedure_call(x), b, pos) <==> (
            occurs_at(seq![x.distance], b, pos)
            && occurs_at(le16(x.symbol), b, pos + seq![x.distance].len())
        ),
{
    lemma_occurs_concat(seq![x.distance], le16(x.symbol), b, pos);
}

/// Appends the bytes of `x`.
pub fn encode_procedure_call(x: &ProcedureCall, out: &mut Vec<u8>)
    requires
        wf_procedure_call(*x),
    ensures
        final(out)@ == old(out)@ + enc_procedure_call(*x),
{
    write_u8(out, x.distance);
    write_u16(out, x.symbol);
    assert(out@ =~= old(out)@ + enc_procedure_call(*x));
}

/// A procedure definition record; its layout is not confirmed, and it is never read.
#[derive(Clone, Debug, PartialEq, Eq)]
pub struct ProcedureDefinition {
    pub symbol: u16,
}

/// The bytes of a `ProcedureDefinition` on disk: its fields in order.
pub open spec fn enc_procedure_definition(x: ProcedureDefinition) -> Seq<u8> {
    le16(x.symbol)
}

/// Every byte string of a `ProcedureDefinition` fits its length prefix.
pub open spec fn wf_procedure_definition(x: ProcedureDefinition) -> bool {
    true
}

/// Appends the bytes of `x`.
pub fn encode_procedure_definition(x: &ProcedureDefinition, out: &mut Vec<u8>)
    requires
        wf_procedure_definition(*x),
    ensures
        final(out)@ == old(out)@ + enc_procedure_definition(*x),
{
    write_u16(out, x.symbol);
    assert(out@ =~= old(out)@ + enc_procedure_definition(*x));
}

/// Debug information at the start of a function.
#[derive(Clone, Debug, PartialEq, Eq)]
pub struct FunctionStart {
    pub section: u16,
    pub offset: u32,
    pub file: u16,
    pub linenum: u32,
    pub frame_register: u16,
    pub frame_size: u32,
    pub return_pc_register: u16,
    pub mask: u32,
    pub mask_offset: i32,
    pub name: Vec<u8>,
}

/// The bytes of a `FunctionStart` on disk: its fields in order.
pub open spec fn enc_function_start(x: FunctionStart) -> Seq<u8> {
    le16(x.section) + le32(x.offset) + le16(x.file) + le32(x.linenum) + le16(x.frame_register) + le32(x.frame_size) + le16(x.return_pc_register) + le32(x.mask) + le32(x.mask_offset as u32) + pstr(x.name@)
}

/// Every byte string of a `FunctionStart` fits its length prefix.
pub open spec fn wf_function_start(x: FunctionStart) -> bool {
    x.name@.len() <= 255
}

proof fn lemma_split_function_start(x: FunctionStart, b: Seq<u8>, pos: int)
    ensures
        occurs_at(enc_function_start(x), b, pos) <==> (
            occurs_at(le16(x.section), b, pos)
            && occurs_at(le32(x.offset), b, pos + le16(x.section).len())
            && occurs_at(le16(x.file), b, pos + le16(x.section).len() + le32(x.offset).len())
            && occurs_at(le32(x.linenum), b, pos + le16(x.section).len() + le32(x.offset).len() + le16(x.file).len())
            && occurs_at(le16(x.frame_register), b, pos + le16(x.section).len() + le32(x.offset).len() + le16(x.file).len() + le32(x.linenum).len())
            && occurs_at(le32(x.frame_size), b, pos + le16(x.section).len() + le32(x.offset).len() + le16(x.file).len() + le32(x.linenum).len() + le16(x.frame_register).len())
            && occurs_at(le16(x.return_pc_register), b, pos + le16(x.section).len() + le32(x.offset).len() + le16(x.file).len() + le32(x.linenum).len() + le16(x.frame_register).len() + le32(x.frame_size).len())
            && occurs_at(le32(x.mask), b, pos + le16(x.section).len() + le32(x.offset).len() + le16(x.file).len() + le32(x.linenum).len() + le16(x.frame_register).len() + le32(x.frame_size).len() + le16(x.return_pc_register).len())
            && occurs_at(le32(x.mask_offset as u32), b, pos + le16(x.section).len() + le32(x.offset).len() + le16(x.file).len() + le32(x.linenum).len() + le16(x.frame_register).len() + le32(x.frame_size).len() + le16(x.return_pc_register).len() + le32(x.mask).len())
            && occurs_at(pstr(x.name@), b, pos + le16(x.section).len() + le32(x.offset).len() + le16(x.file).len() + le32(x.linenum).len() + le16(x.frame_register).len() + le32(x.frame_size).len() + le16(x.return_pc_register).len() + le32(x.mask).len() + le32(x.mask_offset as u32).len())
        ),
{
    lemma_occurs_concat(le16(x.section) + le32(x.offset) + le16(x.file) + le32(x.linenum) + le16(x.frame_register) + le32(x.frame_size) + le16(x.return_pc_register) + le32(x.mask) + le32(x.mask_offset as u32), pstr(x.name@), b, pos);
    lemma_occurs_concat(le16(x.section) + le32(x.offset) + le16(x.file) + le32(x.linenum) + le16(x.frame_register) + le32(x.frame_size) + le16(x.return_pc_register) + le32(x.mask), le32(x.mask_offset as u32), b, pos);
    lemma_occurs_concat(le16(x.section) + le32(x.offset) + le16(x.file) + le32(x.linenum) + le16(x.frame_register) + le32(x.frame_size) + le16(x.return_pc_register), le32(x.mask), b, pos);
    lemma_occurs_concat(le16(x.section) + le32(x.offset) + le16(x.file) + le32(x.linenum) + le16(x.frame_register) + le32(x.frame_size), le16(x.return_pc_register), b, pos);
    lemma_occurs_concat(le16(x.section) + le32(x.offset) + le16(x.file) + le32(x.linenum) + le16(x.frame_register), le32(x.frame_size), b, pos);
    lemma_occurs_concat(le16(x.section) + le32(x.offset) + le16(x.file) + le32(x.linenum), le16(x.frame_register), b, pos);
    lemma_occurs_concat(le16(x.section) + le32(x.offset) + le16(x.file), le32(x.linenum), b, pos);
    lemma_occurs_concat(le16(x.section) + le32(x.offset), le16(x.file), b, pos);
    lemma_occurs_concat(le16(x.section), le32(x.offset), b, pos);
}

/// Appends the bytes of `x`.
pub fn encode_function_start(x: &FunctionStart, out: &mut Vec<u8>)
    requires
        wf_function_start(*x),
    ensures
        final(out)@ == old(out)@ + enc_function_start(*x),
{
    write_u16(out, x.section);
    write_u32(out, x.offset);
    write_u16(out, x.file);
    write_u32(out, x.linenum);
    write_u16(out, x.frame_register);
    write_u32(out, x.frame_size);
    write_u16(out, x.return_pc_register);
    write_u32(out, x.mask);
    write_u32(out, x.mask_offset as u32);
    write_pstr(out, x.name.as_slice());
    assert(out@ =~= old(out)@ + enc_function_start(*x));
}

/// Reads the `FunctionStart` that starts at `pos`.
#[verifier::rlimit(100)]
pub fn decode_function_start(b: &[u8], pos: usize) -> (r: Option<(FunctionStart, usize)>)
    ensures
        r matches Some((y, n)) ==> wf_function_start(y) && n == pos + enc_function_start(y).len() && occurs_at(enc_function_start(y), b@, pos as int),
        forall|x: FunctionStart| wf_function_start(x) && #[trigger] occurs_at(enc_function_start(x), b@, pos as int) ==> (r matches Some((y, n)) && enc_function_start(y) == enc_function_start(x)),
{
    let total = b.len();
    let section = match read_u16(b, pos) {
        Some(v) => v,
        None => {
            proof {
                assert forall|x: FunctionStart| wf_function_start(x) && #[trigger] occurs_at(enc_function_start(x), b@, pos as int) implies false by {
                    lemma_split_function_start(x, b@, pos as int);
                }
            }
            return None;
        },
    };
    let at1 = pos + 2;
    proof {
        assert forall|x: FunctionStart| wf_function_start(x) && #[trigger] occurs_at(enc_function_start(x), b@, pos as int) implies x.section == section by {
            lemma_split_function_start(x, b@, pos as int);
        }
    }
    let offset = match read_u32(b, at1) {
        Some(v) => v,
        None => {
            proof {
                assert forall|x: FunctionStart| wf_function_start(x) && #[trigger] occurs_at(enc_function_start(x), b@, pos as int) implies false by {
                    lemma_split_function_start(x, b@, pos as int);
                }
            }
            return None;
        },
    };
    let at2 = at1 + 4;
    proof {
        assert forall|x: FunctionStart| wf_function_start(x) && #[trigger] occurs_at(enc_function_start(x), b@, pos as int) implies x.section == section && x.offset == offset by {
            lemma_split_function_start(x, b@, pos as int);
        }
    }
    let file = match read_u16(b, at2) {
        Some(v) => v,
        None => {
            proof {
                assert forall|x: FunctionStart| wf_function_start(x) && #[trigger] occurs_at(enc_function_start(x), b@, pos as int) implies false by {
                    lemma_split_function_start(x, b@, pos as int);
                }
            }
            return None;
        },
    };
    let at3 = at2 + 2;
    proof {
        assert forall|x: FunctionStart| wf_function_start(x) && #[trigger] occurs_at(enc_function_start(x), b@, pos as int) implies x.section == section && x.offset == offset && x.file == file by {
            lemma_split_function_start(x, b@, pos as int);
        }
    }
    let linenum = match read_u32(b, at3) {
        Some(v) => v,
        None => {
            proof {
                assert forall|x: FunctionStart| wf_function_start(x) && #[trigger] occurs_at(enc_function_start(x), b@, pos as int) implies false by {
                    lemma_split_function_start(x, b@, pos as int);
                }
            }
            return None;
        },
    };
    let at4 = at3 + 4;
    proof {
        assert forall|x: FunctionStart| wf_function_start(x) && #[trigger] occurs_at(enc_function_start(x), b@, pos as int) implies x.section == section && x.offset == offset && x.file == file && x.linenum == linenum by {
            lemma_split_function_start(x, b@, pos as int);
        }
    }
    let frame_register = match read_u16(b, at4) {
        Some(v) => v,
        None => {
            proof {
                assert forall|x: FunctionStart| wf_function_start(x) && #[trigger] occurs_at(enc_function_start(x), b@, pos as int) implies false by {
                    lemma_split_function_start(x, b@, pos as int);
                }
            }
            return None;
        },
    };
    let at5 = at4 + 2;
    proof {
        assert forall|x: FunctionStart| wf_function_start(x) && #[trigger] occurs_at(enc_function_start(x), b@, pos as int) implies x.section == section && x.offset == offset && x.file == file && x.linenum == linenum && x.frame_register == frame_register by {
            lemma_split_function_start(x, b@, pos as int);
        }
    }
    let frame_size = match read_u32(b, at5) {
        Some(v) => v,
        None => {
            proof {
                assert forall|x: FunctionStart| wf_function_start(x) && #[trigger] occurs_at(enc_function_start(x), b@, pos as int) implies false by {
                    lemma_split_function_start(x, b@, pos as int);
                }
            }
            return None;
        },
    };
    let at6 = at5 + 4;
    proof {
        assert forall|x: FunctionStart| wf_function_start(x) && #[trigger] occurs_at(enc_function_start(x), b@, pos as int) implies x.section == section && x.offset == offset && x.file == file && x.linenum == linenum && x.frame_register == frame_register && x.frame_size == frame_size by {
            lemma_split_function_start(x, b@, pos as int);
        }
    }
    let return_pc_register = match read_u16(b, at6) {
        Some(v) => v,
        None => {
            proof {
                assert forall|x: FunctionStart| wf_function_start(x) && #[trigger] occurs_at(enc_function_start(x), b@, pos as int) implies false by {
                    lemma_split_function_start(x, b@, pos as int);
                }
            }
            return None;
        },
    };
    let at7 = at6 + 2;
    proof {
        assert forall|x: FunctionStart| wf_function_start(x) && #[trigger] occurs_at(enc_function_start(x), b@, pos as int) implies x.section == section && x.offset == offset && x.file == file && x.linenum == linenum && x.frame_register == frame_register && x.frame_size == frame_size && x.return_pc_register == return_pc_register by {
            lemma_split_function_start(x, b@, pos as int);
        }
    }
    let mask = match read_u32(b, at7) {
        Some(v) => v,
        None => {
            proof {
                assert forall|x: FunctionStart| wf_function_start(x) && #[trigger] occurs_at(enc_function_start(x), b@, pos as int) implies false by {
                    lemma_split_function_start(x, b@, pos as int);
                }
            }
            return None;
        },
    };
    let at8 = at7 + 4;
    proof {
        assert forall|x: FunctionStart| wf_function_start(x) && #[trigger] occurs_at(enc_function_start(x), b@, pos as int) implies x.section == section && x.offset == offset && x.file == file && x.linenum == linenum && x.frame_register == frame_register && x.frame_size == frame_size && x.return_pc_register == return_pc_register && x.mask == mask by {
            lemma_split_function_start(x, b@, pos as int);
        }
    }
    let mask_offset = match read_i32(b, at8) {
        Some(v) => v,
        None => {
            proof {
                assert forall|x: FunctionStart| wf_function_start(x) && #[trigger] occurs_at(enc_function_start(x), b@, pos as int) implies false by {
                    lemma_split_function_start(x, b@, pos as int);
                }
            }
            return None;
        },
    };
    let at9 = at8 + 4;
    proof {
        assert forall|x: FunctionStart| wf_function_start(x) && #[trigger] occurs_at(enc_function_start(x), b@, pos as int) implies x.section == section && x.offset == offset && x.file == file && x.linenum == linenum && x.frame_register == frame_register && x.frame_size == frame_size && x.return_pc_register == return_pc_register && x.mask == mask && x.mask_offset == mask_offset by {
            lemma_split_function_start(x, b@, pos as int);
        }
    }
    let (name, at10) = match read_pstr(b, at9) {
        Some(v) => v,
        None => {
            proof {
                assert forall|x: FunctionStart| wf_function_start(x) && #[trigger] occurs_at(enc_function_start(x), b@, pos as int) implies false by {
                    lemma_split_function_start(x, b@, pos as int);
                }
            }
            return None;
        },
    };
    let y = FunctionStart { section, offset, file, linenum, frame_register, frame_size, return_pc_register, mask, mask_offset, name };
    proof {
        lemma_split_function_start(y, b@, pos as int);
        assert forall|x: FunctionStart| wf_function_start(x) && #[trigger] occurs_at(enc_function_start(x), b@, pos as int) implies enc_function_start(x) == enc_function_start(y) by {
            lemma_split_function_start(x, b@, pos as int);
        }
    }
    Some((y, at10))
}

/// A position in a section with its source line: the end of a function, or the start or end of a block.
#[derive(Clone, Debug, PartialEq, Eq)]
pub struct SectionOffsetLine {
    pub section: u16,
    pub offset: u32,
    pub linenum: u32,
}

/// The bytes of a `SectionOffsetLine` on disk: its fields in order.
pub open spec fn enc_section_offset_line(x: SectionOffsetLine) -> Seq<u8> {
    le16(x.section) + le32(x.offset) + le32(x.linenum)
}

/// Every byte string of a `SectionOffsetLine` fits its length prefix.
pub open spec fn wf_section_offset_line(x: SectionOffsetLine) -> bool {
    true
}

proof fn lemma_split_section_offset_line(x: SectionOffsetLine, b: Seq<u8>, pos: int)
    ensures
        occurs_at(enc_section_offset_line(x), b, pos) <==> (
            occurs_at(le16(x.section), b, pos)
            && occurs_at(le32(x.offset), b, pos + le16(x.section).len())
            && occurs_at(le32(x.linenum), b, pos + le16(x.section).len() + le32(x.offset).len())
        ),
{
    lemma_occurs_concat(le16(x.section) + le32(x.offset), le32(x.linenum), b, pos);
    lemma_occurs_concat(le16(x.section), le32(x.offset), b, pos);
}

/// Appends the bytes of `x`.
pub fn encode_section_offset_line(x: &SectionOffsetLine, out: &mut Vec<u8>)
    requires
        wf_section_offset_line(*x),
    ensures
        final(out)@ == old(out)@ + enc_section_offset_line(*x),
{
    write_u16(out, x.section);
    write_u32(out, x.offset);
    write_u32(out, x.linenum);
    assert(out@ =~= old(out)@ + enc_section_offset_line(*x));
}

/// Reads the `SectionOffsetLine` that starts at `pos`.
pub fn decode_section_offset_line(b: &[u8], pos: usize) -> (r: Option<(SectionOffsetLine, usize)>)
    ensures
        r matches Some((y, n)) ==> wf_section_offset_line(y) && n == pos + enc_section_offset_line(y).len() && occurs_at(enc_section_offset_line(y), b@, pos as int),
        forall|x: SectionOffsetLine| wf_section_offset_line(x) && #[trigger] occurs_at(enc_section_offset_line(x), b@, pos as int) ==> (r matches Some((y, n)) && enc_section_offset_line(y) == enc_section_offset_line(x)),
{
    let total = b.len();
    let section = match read_u16(b, pos) {
        Some(v) => v,
        None => {
            proof {
                assert forall|x: SectionOffsetLine| wf_section_offset_line(x) && #[trigger] occurs_at(enc_section_offset_line(x), b@, pos as int) implies false by {
                    lemma_split_section_offset_line(x, b@, pos as int);
                }
            }
            return None;
        },
    };
    let at1 = pos + 2;
    let offset = match read_u32(b, at1) {
        Some(v) => v,
        None => {
            proof {
                assert forall|x: SectionOffsetLine| wf_section_offset_line(x) && #[trigger] occurs_at(enc_section_offset_line(x), b@, pos as int) implies false by {
                    lemma_split_section_offset_line(x, b@, pos as int);
                }
            }
            return None;
        },
    };
    let at2 = at1 + 4;
    let linenum = match read_u32(b, at2) {
        Some(v) => v,
        None => {
            proof {
                assert forall|x: SectionOffsetLine| wf_section_offset_line(x) && #[trigger] occurs_at(enc_section_offset_line(x), b@, pos as int) implies false by {
                    lemma_split_section_offset_line(x, b@, pos as int);
                }
            }
            return None;
        },
    };
    let at3 = at2 + 4;
    let y = SectionOffsetLine { section, offset, linenum };
    proof {
        lemma_split_section_offset_line(y, b@, pos as int);
        assert forall|x: SectionOffsetLine| wf_section_offset_line(x) && #[trigger] occurs_at(enc_section_offset_line(x), b@, pos as int) implies enc_section_offset_line(x) == enc_section_offset_line(y) by {
            lemma_split_section_offset_line(x, b@, pos as int);
        }
    }
    Some((y, at3))
}

/// A type or variable definition.
#[derive(Clone, Debug, PartialEq, Eq)]
pub struct Def {
    pub section: u16,
    pub value: u32,
    pub class: u16,
    pub def_type: u16,
    pub size: u32,
    pub name: Vec<u8>,
}

/// The bytes of a `Def` on disk: its fields in order.
pub open spec fn enc_def(x: Def) -> Seq<u8> {
    le16(x.section) + le32(x.value) + le16(x.class) + le16(x.def_type) + le32(x.size) + pstr(x.name@)
}

/// Every byte string of a `Def` fits its length prefix.
pub open spec fn wf_def(x: Def) -> bool {
    x.name@.len() <= 255
}

proof fn lemma_split_def(x: Def, b: Seq<u8>, pos: int)
    ensures
        occurs_at(enc_def(x), b, pos) <==> (
            occurs_at(le16(x.section), b, pos)
            && occurs_at(le32(x.value), b, pos + le16(x.section).len())
            && occurs_at(le16(x.class), b, pos + le16(x.section).len() + le32(x.value).len())
            && occurs_at(le16(x.def_type), b, pos + le16(x.section).len() + le32(x.value).len() + le16(x.class).len())
            && occurs_at(le32(x.size), b, pos + le16(x.section).len() + le32(x.value).len() + le16(x.class).len() + le16(x.def_type).len())
            && occurs_at(pstr(x.name@), b, pos + le16(x.section).len() + le32(x.value).len() + le16(x.class).len() + le16(x.def_type).len() + le32(x.size).len())
        ),
{
    lemma_occurs_concat(le16(x.section) + le32(x.value) + le16(x.class) + le16(x.def_type) + le32(x.size), pstr(x.name@), b, pos);
    lemma_occurs_concat(le16(x.section) + le32(x.value) + le16(x.class) + le16(x.def_type), le32(x.size), b, pos);
    lemma_occurs_concat(le16(x.section) + le32(x.value) + le16(x.class), le16(x.def_type), b, pos);
    lemma_occurs_concat(le16(x.section) + le32(x.value), le16(x.class), b, pos);
    lemma_occurs_concat(le16(x.section), le32(x.value), b, pos);
}

/// Appends the bytes of `x`.
pub fn encode_def(x: &Def, out: &mut Vec<u8>)
    requires
        wf_def(*x),
    ensures
        final(out)@ == old(out)@ + enc_def(*x),
{
    write_u16(out, x.section);
    write_u32(out, x.value);
    write_u16(out, x.class);
    write_u16(out, x.def_type);
    write_u32(out, x.size);
    write_pstr(out, x.name.as_slice());
    assert(out@ =~= old(out)@ + enc_def(*x));
}

/// Reads the `Def` that starts at `pos`.
#[verifier::rlimit(100)]
pub fn decode_def(b: &[u8], pos: usize) -> (r: Option<(Def, usize)>)
    ensures
        r matches Some((y, n)) ==> wf_def(y) && n == pos + enc_def(y).len() && occurs_at(enc_def(y), b@, pos as int),
        forall|x: Def| wf_def(x) && #[trigger] occurs_at(enc_def(x), b@, pos as int) ==> (r matches Some((y, n)) && enc_def(y) == enc_def(x)),
{
    let total = b.len();
    let section = match read_u16(b, pos) {
        Some(v) => v,
        None => {
            proof {
                assert forall|x: Def| wf_def(x) && #[trigger] occurs_at(enc_def(x), b@, pos as int) implies false by {
                    lemma_split_def(x, b@, pos as int);
                }
            }
            return None;
        },
    };
    let at1 = pos + 2;
    proof {
        assert forall|x: Def| wf_def(x) && #[trigger] occurs_at(enc_def(x), b@, pos as int) implies x.section == section by {
            lemma_split_def(x, b@, pos as int);
        }
    }
    let value = match read_u32(b, at1) {
        Some(v) => v,
        None => {
            proof {
                assert forall|x: Def| wf_def(x) && #[trigger] occurs_at(enc_def(x), b@, pos as int) implies false by {
                    lemma_split_def(x, b@, pos as int);
                }
            }
            return None;
        },
    };
    let at2 = at1 + 4;
    proof {
        assert forall|x: Def| wf_def(x) && #[trigger] occurs_at(enc_def(x), b@, pos as int) implies x.section == section && x.value == value by {
            lemma_split_def(x, b@, pos as int);
        }
    }
    let class = match read_u16(b, at2) {
        Some(v) => v,
        None => {
            proof {
                assert forall|x: Def| wf_def(x) && #[trigger] occurs_at(enc_def(x), b@, pos as int) implies false by {
                    lemma_split_def(x, b@, pos as int);
                }
            }
            return None;
        },
    };
    let at3 = at2 + 2;
    proof {
        assert forall|x: Def| wf_def(x) && #[trigger] occurs_at(enc_def(x), b@, pos as int) implies x.section == section && x.value == value && x.class == class by {
            lemma_split_def(x, b@, pos as int);
        }
    }
    let def_type = match read_u16(b, at3) {
        Some(v) => v,
        None => {
            proof {
                assert forall|x: Def| wf_def(x) && #[trigger] occurs_at(enc_def(x), b@, pos as int) implies false by {
                    lemma_split_def(x, b@, pos as int);
                }
            }
            return None;
        },
    };
    let at4 = at3 + 2;
    proof {
        assert forall|x: Def| wf_def(x) && #[trigger] occurs_at(enc_def(x), b@, pos as int) implies x.section == section && x.value == value && x.class == class && x.def_type == def_type by {
            lemma_split_def(x, b@, pos as int);
        }
    }
    let size = match read_u32(b, at4) {
        Some(v) => v,
        None => {
            proof {
                assert forall|x: Def| wf_def(x) && #[trigger] occurs_at(enc_def(x), b@, pos as int) implies false by {
                    lemma_split_def(x, b@, pos as int);
                }
            }
            return None;
        },
    };
    let at5 = at4 + 4;
    proof {
        assert forall|x: Def| wf_def(x) && #[trigger] occurs_at(enc_def(x), b@, pos as int) implies x.section == section && x.value == value && x.class == class && x.def_type == def_type && x.size == size by {
            lemma_split_def(x, b@, pos as int);
        }
    }
    let (name, at6) = match read_pstr(b, at5) {
        Some(v) => v,
        None => {
            proof {
                assert forall|x: Def| wf_def(x) && #[trigger] occurs_at(enc_def(x), b@, pos as int) implies false by {
                    lemma_split_def(x, b@, pos as int);
                }
            }
            return None;
        },
    };
    let y = Def { section, value, class, def_type, size, name };
    proof {
        lemma_split_def(y, b@, pos as int);
        assert forall|x: Def| wf_def(x) && #[trigger] occurs_at(enc_def(x), b@, pos as int) implies enc_def(x) == enc_def(y) by {
            lemma_split_def(x, b@, pos as int);
        }
    }
    Some((y, at6))
}

/// A type or variable definition with dimensions and a tag.
#[derive(Clone, Debug, PartialEq, Eq)]
pub struct Def2 {
    pub section: u16,
    pub value: u32,
    pub class: u16,
    pub def_type: u16,
    pub size: u32,
    pub dims: Dim,
    pub tag: Vec<u8>,
    pub name: Vec<u8>,
}

/// The bytes of a `Def2` on disk: its fields in order.
pub open spec fn enc_def2(x: Def2) -> Seq<u8> {
    le16(x.section) + le32(x.value) + le16(x.class) + le16(x.def_type) + le32(x.size) + enc_dim(x.dims) + pstr(x.tag@) + pstr(x.name@)
}

/// Every byte string of a `Def2` fits its length prefix.
pub open spec fn wf_def2(x: Def2) -> bool {
    x.tag@.len() <= 255 && x.name@.len() <= 255
}

proof fn lemma_split_def2(x: Def2, b: Seq<u8>, pos: int)
    ensures
        occurs_at(enc_def2(x), b, pos) <==> (
            occurs_at(le16(x.section), b, pos)
            && occurs_at(le32(x.value), b, pos + le16(x.section).len())
            && occurs_at(le16(x.class), b, pos + le16(x.section).len() + le32(x.value).len())
            && occurs_at(le16(x.def_type), b, pos + le16(x.section).len() + le32(x.value).len() + le16(x.class).len())
            && occurs_at(le32(x.size), b, pos + le16(x.section).len() + le32(x.value).len() + le16(x.class).len() + le16(x.def_type).len())
            && occurs_at(enc_dim(x.dims), b, pos + le16(x.section).len() + le32(x.value).len() + le16(x.class).len() + le16(x.def_type).len() + le32(x.size).len())
            && occurs_at(pstr(x.tag@), b, pos + le16(x.section).len() + le32(x.value).len() + le16(x.class).len() + le16(x.def_type).len() + le32(x.size).len() + enc_dim(x.dims).len())
            && occurs_at(pstr(x.name@), b, pos + le16(x.section).len() + le32(x.value).len() + le16(x.class).len() + le16(x.def_type).len() + le32(x.size).len() + enc_dim(x.dims).len() + pstr(x.tag@).len())
        ),
{
    lemma_occurs_concat(le16(x.section) + le32(x.value) + le16(x.class) + le16(x.def_type) + le32(x.size) + enc_dim(x.dims) + pstr(x.tag@), pstr(x.name@), b, pos);
    lemma_occurs_concat(le16(x.section) + le32(x.value) + le16(x.class) + le16(x.def_type) + le32(x.size) + enc_dim(x.dims), pstr(x.tag@), b, pos);
    lemma_occurs_concat(le16(x.section) + le32(x.value) + le16(x.class) + le16(x.def_type) + le32(x.size), enc_dim(x.dims), b, pos);
    lemma_occurs_concat(le16(x.section) + le32(x.value) + le16(x.class) + le16(x.def_type), le32(x.size), b, pos);
    lemma_occurs_concat(le16(x.section) + le32(x.value) + le16(x.class), le16(x.def_type), b, pos);
    lemma_occurs_concat(le16(x.section) + le32(x.value), le16(x.class), b, pos);
    lemma_occurs_concat(le16(x.section), le32(x.value), b, pos);
}

/// Appends the bytes of `x`.
pub fn encode_def2(x: &Def2, out: &mut Vec<u8>)
    requires
        wf_def2(*x),
    ensures
        final(out)@ == old(out)@ + enc_def2(*x),
{
    write_u16(out, x.section);
    write_u32(out, x.value);
    write_u16(out, x.class);
    write_u16(out, x.def_type);
    write_u32(out, x.size);
    encode_dim(&x.dims, out);
    write_pstr(out, x.tag.as_slice());
    write_pstr(out, x.name.as_slice());
    assert(out@ =~= old(out)@ + enc_def2(*x));
}

/// Reads the `Def2` that starts at `pos`.
#[verifier::rlimit(100)]
pub fn decode_def2(b: &[u8], pos: usize) -> (r: Option<(Def2, usize)>)
    ensures
        r matches Some((y, n)) ==> wf_def2(y) && n == pos + enc_def2(y).len() && occurs_at(enc_def2(y), b@, pos as int),
        forall|x: Def2| wf_def2(x) && #[trigger] occurs_at(enc_def2(x), b@, pos as int) ==> (r matches Some((y, n)) && enc_def2(y) == enc_def2(x)),
{
    let total = b.len();
    let section = match read_u16(b, pos) {
        Some(v) => v,
        None => {
            proof {
                assert forall|x: Def2| wf_def2(x) && #[trigger] occurs_at(enc_def2(x), b@, pos as int) implies false by {
                    lemma_split_def2(x, b@, pos as int);
                }
            }
            return None;
        },
    };
    let at1 = pos + 2;
    proof {
        assert forall|x: Def2| wf_def2(x) && #[trigger] occurs_at(enc_def2(x), b@, pos as int) implies x.section == section by {
            lemma_split_def2(x, b@, pos as int);
        }
    }
    let value = match read_u32(b, at1) {
        Some(v) => v,
        None => {
            proof {
                assert forall|x: Def2| wf_def2(x) && #[trigger] occurs_at(enc_def2(x), b@, pos as int) implies false by {
                    lemma_split_def2(x, b@, pos as int);
                }
            }
            return None;
        },
    };
    let at2 = at1 + 4;
    proof {
        assert forall|x: Def2| wf_def2(x) && #[trigger] occurs_at(enc_def2(x), b@, pos as int) implies x.section == section && x.value == value by {
            lemma_split_def2(x, b@, pos as int);
        }
    }
    let class = match read_u16(b, at2) {
        Some(v) => v,
        None => {
            proof {
                assert forall|x: Def2| wf_def2(x) && #[trigger] occurs_at(enc_def2(x), b@, pos as int) implies false by {
                    lemma_split_def2(x, b@, pos as int);
                }
            }
            return None;
        },
    };
    let at3 = at2 + 2;
    proof {
        assert forall|x: Def2| wf_def2(x) && #[trigger] occurs_at(enc_def2(x), b@, pos as int) implies x.section == section && x.value == value && x.class == class by {
            lemma_split_def2(x, b@, pos as int);
        }
    }
    let def_type = match read_u16(b, at3) {
        Some(v) => v,
        None => {
            proof {
                assert forall|x: Def2| wf_def2(x) && #[trigger] occurs_at(enc_def2(x), b@, pos as int) implies false by {
                    lemma_split_def2(x, b@, pos as int);
                }
            }
            return None;
        },
    };
    let at4 = at3 + 2;
    proof {
        assert forall|x: Def2| wf_def2(x) && #[trigger] occurs_at(enc_def2(x), b@, pos as int) implies x.section == section && x.value == value && x.class == class && x.def_type == def_type by {
            lemma_split_def2(x, b@, pos as int);
        }
    }
    let size = match read_u32(b, at4) {
        Some(v) => v,
        None => {
            proof {
                assert forall|x: Def2| wf_def2(x) && #[trigger] occurs_at(enc_def2(x), b@, pos as int) implies false by {
                    lemma_split_def2(x, b@, pos as int);
                }
            }
            return None;
        },
    };
    let at5 = at4 + 4;
    proof {
        assert forall|x: Def2| wf_def2(x) && #[trigger] occurs_at(enc_def2(x), b@, pos as int) implies x.section == section && x.value == value && x.class == class && x.def_type == def_type && x.size == size by {
            lemma_split_def2(x, b@, pos as int);
        }
    }
    let (dims, at6) = match decode_dim(b, at5) {
        Some(v) => v,
        None => {
            proof {
                assert forall|x: Def2| wf_def2(x) && #[trigger] occurs_at(enc_def2(x), b@, pos as int) implies false by {
                    lemma_split_def2(x, b@, pos as int);
                }
            }
            return None;
        },
    };
    proof {
        assert forall|x: Def2| wf_def2(x) && #[trigger] occurs_at(enc_def2(x), b@, pos as int) implies x.section == section && x.value == value && x.class == class && x.def_type == def_type && x.size == size && enc_dim(x.dims) == enc_dim(dims) by {
            lemma_split_def2(x, b@, pos as int);
        }
    }
    let (tag, at7) = match read_pstr(b, at6) {
        Some(v) => v,
        None => {
            proof {
                assert forall|x: Def2| wf_def2(x) && #[trigger] occurs_at(enc_def2(x), b@, pos as int) implies false by {
                    lemma_split_def2(x, b@, pos as int);
                }
            }
            return None;
        },
    };
    proof {
        assert forall|x: Def2| wf_def2(x) && #[trigger] occurs_at(enc_def2(x), b@, pos as int) implies x.section == section && x.value == value && x.class == class && x.def_type == def_type && x.size == size && enc_dim(x.dims) == enc_dim(dims) && x.tag@ == tag@ by {
            lemma_split_def2(x, b@, pos as int);
        }
    }
    let (name, at8) = match read_pstr(b, at7) {
        Some(v) => v,
        None => {
            proof {
                assert forall|x: Def2| wf_def2(x) && #[trigger] occurs_at(enc_def2(x), b@, pos as int) implies false by {
                    lemma_split_def2(x, b@, pos as int);
                }
            }
            return None;
        },
    };
    let y = Def2 { section, value, class, def_type, size, dims, tag, name };
    proof {
        lemma_split_def2(y, b@, pos as int);
        assert forall|x: Def2| wf_def2(x) && #[trigger] occurs_at(enc_def2(x), b@, pos as int) implies enc_def2(x) == enc_def2(y) by {
            lemma_split_def2(x, b@, pos as int);
        }
    }
    Some((y, at8))
}

/// A record of an object file.
#[derive(Clone, Debug, PartialEq, Eq)]
pub enum Section {
    /// The end of the section list.
    NOP,
    /// Machine code.
    Code(Code),
    /// Run at an offset (section, offset).
    RunAtOffset(u16, u16),
    /// Switch to a section.
    SectionSwitch(u16),
    /// Uninitialised data of a size.
    BSS(u32),
    /// A relocation.
    Patch(Patch),
    /// An exported symbol.
    XDEF(XDEF),
    /// An imported symbol.
    XREF(XREF),
    /// A section header.
    LNKHeader(LNKHeader),
    /// A local symbol.
    LocalSymbol(LocalSymbol),
    /// A group symbol.
    GroupSymbol(GroupSymbol),
    /// Set the byte size register.
    ByteSizeRegister(u16),
    /// Set the word size register.
    WordSizeRegister(u16),
    /// Set the long size register.
    LongSizeRegister(u16),
    /// A file name.
    Filename(Filename),
    /// Set to a file and line.
    SetToFile(u16, u32),
    /// Set to a line.
    SetToLine(u32),
    /// Increment the line number.
    IncrementLineNumber,
    /// Increment the line number by a byte.
    IncrementLineNumberByte(u8),
    /// Increment the line number by a word.
    IncrementLineNumberWord(u32),
    /// A very local symbol.
    VeryLocalSymbol(LocalSymbol),
    /// Set the 3-byte size register.
    Set3ByteRegister(u16),
    /// MX information.
    SetMXInfo(SetMXInfo),
    /// The processor type.
    CPU(u8),
    /// An exported uninitialised block.
    XBSS(XBSS),
    /// Increment the source line number at an offset.
    IncSLDLineNum(u16),
    /// Increment the source line number by a byte at an offset.
    IncSLDLineNumByte(u16, u8),
    /// Increment the source line number by a word at an offset.
    IncSLDLineNumWord(u16, u32),
    /// Set the source line number.
    SetSLDLineNum(SetSLDLineNum),
    /// Set the source line number and file.
    SetSLDLineNumFile(SetSLDLineNumFile),
    /// End of source line information at an offset.
    EndSLDInfo(u16),
    /// Repeat a byte.
    RepeatByte(u32),
    /// Repeat a word.
    RepeatWord(u32),
    /// Repeat a long; its layout is not confirmed, and it is never read.
    RepeatLong(u32),
    /// A procedure call; never read.
    ProcedureCall(ProcedureCall),
    /// A procedure definition; never read.
    ProcedureDefinition(ProcedureDefinition),
    /// Repeat three bytes.
    Repeat3Byte(u32),
    /// Start of a function.
    FunctionStart(FunctionStart),
    /// End of a function.
    FunctionEnd(SectionOffsetLine),
    /// Start of a block.
    BlockStart(SectionOffsetLine),
    /// End of a block.
    BlockEnd(SectionOffsetLine),
    /// A definition.
    Def(Def),
    /// A definition with dimensions.
    Def2(Def2),
}

/// The tag byte that starts a record.
pub open spec fn section_tag(s: Section) -> u8 {
    match s {
        Section::NOP => 0,
        Section::Code(_) => 2,
        Section::RunAtOffset(_, _) => 4,
        Section::SectionSwitch(_) => 6,
        Section::BSS(_) => 8,
        Section::Patch(_) => 10,
        Section::XDEF(_) => 12,
        Section::XREF(_) => 14,
        Section::LNKHeader(_) => 16,
        Section::LocalSymbol(_) => 18,
        Section::GroupSymbol(_) => 20,
        Section::ByteSizeRegister(_) => 22,
        Section::WordSizeRegister(_) => 24,
        Section::LongSizeRegister(_) => 26,
        Section::Filename(_) => 28,
        Section::SetToFile(_, _) => 30,
        Section::SetToLine(_) => 32,
        Section::IncrementLineNumber => 34,
        Section::IncrementLineNumberByte(_) => 36,
        Section::IncrementLineNumberWord(_) => 38,
        Section::VeryLocalSymbol(_) => 40,
        Section::Set3ByteRegister(_) => 42,
        Section::SetMXInfo(_) => 44,
        Section::CPU(_) => 46,
        Section::XBSS(_) => 48,
        Section::IncSLDLineNum(_) => 50,
        Section::IncSLDLineNumByte(_, _) => 52,
        Section::IncSLDLineNumWord(_, _) => 54,
        Section::SetSLDLineNum(_) => 56,
        Section::SetSLDLineNumFile(_) => 58,
        Section::EndSLDInfo(_) => 60,
        Section::RepeatByte(_) => 62,
        Section::RepeatWord(_) => 64,
        Section::RepeatLong(_) => 66,
        Section::ProcedureCall(_) => 68,
        Section::ProcedureDefinition(_) => 70,
        Section::Repeat3Byte(_) => 72,
        Section::FunctionStart(_) => 74,
        Section::FunctionEnd(_) => 76,
        Section::BlockStart(_) => 78,
        Section::BlockEnd(_) => 80,
        Section::Def(_) => 82,
        Section::Def2(_) => 84,
    }
}

impl Section {
    /// The tag byte that starts this record on disk.
    pub fn tag(&self) -> (r: u8)
        ensures
            r == section_tag(*self),
    {
        match self {
            Section::NOP => 0,
            Section::Code(_) => 2,
            Section::RunAtOffset(_, _) => 4,
            Section::SectionSwitch(_) => 6,
            Section::BSS(_) => 8,
            Section::Patch(_) => 10,
            Section::XDEF(_) => 12,
            Section::XREF(_) => 14,
            Section::LNKHeader(_) => 16,
            Section::LocalSymbol(_) => 18,
            Section::GroupSymbol(_) => 20,
            Section::ByteSizeRegister(_) => 22,
            Section::WordSizeRegister(_) => 24,
            Section::LongSizeRegister(_) => 26,
            Section::Filename(_) => 28,
            Section::SetToFile(_, _) => 30,
            Section::SetToLine(_) => 32,
            Section::IncrementLineNumber => 34,
            Section::IncrementLineNumberByte(_) => 36,
            Section::IncrementLineNumberWord(_) => 38,
            Section::VeryLocalSymbol(_) => 40,
            Section::Set3ByteRegister(_) => 42,
            Section::SetMXInfo(_) => 44,
            Section::CPU(_) => 46,
            Section::XBSS(_) => 48,
            Section::IncSLDLineNum(_) => 50,
            Section::IncSLDLineNumByte(_, _) => 52,
            Section::IncSLDLineNumWord(_, _) => 54,
            Section::SetSLDLineNum(_) => 56,
            Section::SetSLDLineNumFile(_) => 58,
            Section::EndSLDInfo(_) => 60,
            Section::RepeatByte(_) => 62,
            Section::RepeatWord(_) => 64,
            Section::RepeatLong(_) => 66,
            Section::ProcedureCall(_) => 68,
            Section::ProcedureDefinition(_) => 70,
            Section::Repeat3Byte(_) => 72,
            Section::FunctionStart(_) => 74,
            Section::FunctionEnd(_) => 76,
            Section::BlockStart(_) => 78,
            Section::BlockEnd(_) => 80,
            Section::Def(_) => 82,
            Section::Def2(_) => 84,
        }
    }
}

/// The bytes of a record after its tag.
pub open spec fn payload_enc(s: Section) -> Seq<u8> {
    match s {
        Section::NOP => Seq::empty(),
        Section::Code(x) => enc_code(x),
        Section::RunAtOffset(a0, a1) => le16(a0) + le16(a1),
        Section::SectionSwitch(a0) => le16(a0),
        Section::BSS(a0) => le32(a0),
        Section::Patch(x) => enc_patch(x),
        Section::XDEF(x) => enc_xdef(x),
        Section::XREF(x) => enc_xref(x),
        Section::LNKHeader(x) => enc_lnk_header(x),
        Section::LocalSymbol(x) => enc_local_symbol(x),
        Section::GroupSymbol(x) => enc_group_symbol(x),
        Section::ByteSizeRegister(a0) => le16(a0),
        Section::WordSizeRegister(a0) => le16(a0),
        Section::LongSizeRegister(a0) => le16(a0),
        Section::Filename(x) => enc_filename(x),
        Section::SetToFile(a0, a1) => le16(a0) + le32(a1),
        Section::SetToLine(a0) => le32(a0),
        Section::IncrementLineNumber => Seq::empty(),
        Section::IncrementLineNumberByte(a0) => seq![a0],
        Section::IncrementLineNumberWord(a0) => le32(a0),
        Section::VeryLocalSymbol(x) => enc_local_symbol(x),
        Section::Set3ByteRegister(a0) => le16(a0),
        Section::SetMXInfo(x) => enc_set_mx_info(x),
        Section::CPU(a0) => seq![a0],
        Section::XBSS(x) => enc_xbss(x),
        Section::IncSLDLineNum(a0) => le16(a0),
        Section::IncSLDLineNumByte(a0, a1) => le16(a0) + seq![a1],
        Section::IncSLDLineNumWord(a0, a1) => le16(a0) + le32(a1),
        Section::SetSLDLineNum(x) => enc_set_sld_line_num(x),
        Section::SetSLDLineNumFile(x) => enc_set_sld_line_num_file(x),
        Section::EndSLDInfo(a0) => le16(a0),
        Section::RepeatByte(a0) => le32(a0),
        Section::RepeatWord(a0) => le32(a0),
        Section::RepeatLong(a0) => le32(a0),
        Section::ProcedureCall(x) => enc_procedure_call(x),
        Section::ProcedureDefinition(x) => enc_procedure_definition(x),
        Section::Repeat3Byte(a0) => le32(a0),
        Section::FunctionStart(x) => enc_function_start(x),
        Section::FunctionEnd(x) => enc_section_offset_line(x),
        Section::BlockStart(x) => enc_section_offset_line(x),
        Section::BlockEnd(x) => enc_section_offset_line(x),
        Section::Def(x) => enc_def(x),
        Section::Def2(x) => enc_def2(x),
    }
}

/// The bytes of a record on disk.
pub open spec fn enc_section(s: Section) -> Seq<u8> {
    seq![section_tag(s)] + payload_enc(s)
}

/// A record that can be read and written: its byte strings fit their length
/// prefixes, and it is none of the kinds whose layout is unconfirmed
/// (`RepeatLong`, `ProcedureCall`, `ProcedureDefinition`), which are refused.
pub open spec fn wf_section(s: Section) -> bool {
    match s {
        Section::Code(x) => wf_code(x),
        Section::Patch(x) => wf_patch(x),
        Section::XDEF(x) => wf_xdef(x),
        Section::XREF(x) => wf_xref(x),
        Section::LNKHeader(x) => wf_lnk_header(x),
        Section::LocalSymbol(x) => wf_local_symbol(x),
        Section::GroupSymbol(x) => wf_group_symbol(x),
        Section::Filename(x) => wf_filename(x),
        Section::VeryLocalSymbol(x) => wf_local_symbol(x),
        Section::SetMXInfo(x) => wf_set_mx_info(x),
        Section::XBSS(x) => wf_xbss(x),
        Section::SetSLDLineNum(x) => wf_set_sld_line_num(x),
        Section::SetSLDLineNumFile(x) => wf_set_sld_line_num_file(x),
        Section::RepeatLong(_) => false,
        Section::ProcedureCall(_) => false,
        Section::ProcedureDefinition(_) => false,
        Section::FunctionStart(x) => wf_function_start(x),
        Section::FunctionEnd(x) => wf_section_offset_line(x),
        Section::BlockStart(x) => wf_section_offset_line(x),
        Section::BlockEnd(x) => wf_section_offset_line(x),
        Section::Def(x) => wf_def(x),
        Section::Def2(x) => wf_def2(x),
        _ => true,
    }
}

/// Appends the bytes of `s`.
pub fn encode_section(s: &Section, out: &mut Vec<u8>)
    requires
        wf_section(*s),
    ensures
        final(out)@ == old(out)@ + enc_section(*s),
{
    let ghost start = out@;
    match s {
        Section::NOP => {
            write_u8(out, 0);
        },
        Section::Code(x) => {
            write_u8(out, 2);
            encode_code(x, out);
        },
        Section::RunAtOffset(a0, a1) => {
            write_u8(out, 4);
            write_u16(out, *a0);
            write_u16(out, *a1);
        },
        Section::SectionSwitch(a0) => {
            write_u8(out, 6);
            write_u16(out, *a0);
        },
        Section::BSS(a0) => {
            write_u8(out, 8);
            write_u32(out, *a0);
        },
        Section::Patch(x) => {
            write_u8(out, 10);
            encode_patch(x, out);
        },
        Section::XDEF(x) => {
            write_u8(out, 12);
            encode_xdef(x, out);
        },
        Section::XREF(x) => {
            write_u8(out, 14);
            encode_xref(x, out);
        },
        Section::LNKHeader(x) => {
            write_u8(out, 16);
            encode_lnk_header(x, out);
        },
        Section::LocalSymbol(x) => {
            write_u8(out, 18);
            encode_local_symbol(x, out);
        },
        Section::GroupSymbol(x) => {
            write_u8(out, 20);
            encode_group_symbol(x, out);
        },
        Section::ByteSizeRegister(a0) => {
            write_u8(out, 22);
            write_u16(out, *a0);
        },
        Section::WordSizeRegister(a0) => {
            write_u8(out, 24);
            write_u16(out, *a0);
        },
        Section::LongSizeRegister(a0) => {
            write_u8(out, 26);
            write_u16(out, *a0);
        },
        Section::Filename(x) => {
            write_u8(out, 28);
            encode_filename(x, out);
        },
        Section::SetToFile(a0, a1) => {
            write_u8(out, 30);
            write_u16(out, *a0);
            write_u32(out, *a1);
        },
        Section::SetToLine(a0) => {
            write_u8(out, 32);
            write_u32(out, *a0);
        },
        Section::IncrementLineNumber => {
            write_u8(out, 34);
        },
        Section::IncrementLineNumberByte(a0) => {
            write_u8(out, 36);
            write_u8(out, *a0);
        },
        Section::IncrementLineNumberWord(a0) => {
            write_u8(out, 38);
            write_u32(out, *a0);
        },
        Section::VeryLocalSymbol(x) => {
            write_u8(out, 40);
            encode_local_symbol(x, out);
        },
        Section::Set3ByteRegister(a0) => {
            write_u8(out, 42);
            write_u16(out, *a0);
        },
        Section::SetMXInfo(x) => {
            write_u8(out, 44);
            encode_set_mx_info(x, out);
        },
        Section::CPU(a0) => {
            write_u8(out, 46);
            write_u8(out, *a0);
        },
        Section::XBSS(x) => {
            write_u8(out, 48);
            encode_xbss(x, out);
        },
        Section::IncSLDLineNum(a0) => {
            write_u8(out, 50);
            write_u16(out, *a0);
        },
        Section::IncSLDLineNumByte(a0, a1) => {
            write_u8(out, 52);
            write_u16(out, *a0);
            write_u8(out, *a1);
        },
        Section::IncSLDLineNumWord(a0, a1) => {
            write_u8(out, 54);
            write_u16(out, *a0);
            write_u32(out, *a1);
        },
        Section::SetSLDLineNum(x) => {
            write_u8(out, 56);
            encode_set_sld_line_num(x, out);
        },
        Section::SetSLDLineNumFile(x) => {
            write_u8(out, 58);
            encode_set_sld_line_num_file(x, out);
        },
        Section::EndSLDInfo(a0) => {
            write_u8(out, 60);
            write_u16(out, *a0);
        },
        Section::RepeatByte(a0) => {
            write_u8(out, 62);
            write_u32(out, *a0);
        },
        Section::RepeatWord(a0) => {
            write_u8(out, 64);
            write_u32(out, *a0);
        },
        Section::Repeat3Byte(a0) => {
            write_u8(out, 72);
            write_u32(out, *a0);
        },
        Section::FunctionStart(x) => {
            write_u8(out, 74);
            encode_function_start(x, out);
        },
        Section::FunctionEnd(x) => {
            write_u8(out, 76);
            encode_section_offset_line(x, out);
        },
        Section::BlockStart(x) => {
            write_u8(out, 78);
            encode_section_offset_line(x, out);
        },
        Section::BlockEnd(x) => {
            write_u8(out, 80);
            encode_section_offset_line(x, out);
        },
        Section::Def(x) => {
            write_u8(out, 82);
            encode_def(x, out);
        },
        Section::Def2(x) => {
            write_u8(out, 84);
            encode_def2(x, out);
        },
        _ => {},
    }
    assert(out@ =~= start + enc_section(*s));
}

fn decode_payload_0(b: &[u8], pos: usize, t: u8) -> (r: Option<(Section, usize)>)
    requires
        0 <= t <= 20,
        pos <= b@.len(),
    ensures
        r matches Some((y, n)) ==> wf_section(y) && section_tag(y) == t && n == pos + payload_enc(y).len() && occurs_at(payload_enc(y), b@, pos as int),
        forall|x: Section| wf_section(x) && section_tag(x) == t && #[trigger] occurs_at(payload_enc(x), b@, pos as int) ==> (r matches Some((y, n)) && payload_enc(y) == payload_enc(x)),
{
    let total = b.len();
    if t == 0 {
        let y = Section::NOP;
        proof {
            lemma_occurs_empty(b@, pos as int);
        }
        Some((y, pos))
    } else if t == 2 {
        match decode_code(b, pos) {
            Some((v, n)) => {
                let y = Section::Code(v);
                Some((y, n))
            },
            None => None,
        }
    } else if t == 4 {
        let a0 = match read_u16(b, pos) {
            Some(v) => v,
            None => {
                proof {
                    assert forall|x: Section| wf_section(x) && section_tag(x) == t && #[trigger] occurs_at(payload_enc(x), b@, pos as int) implies false by {
                        lemma_occurs_concat(le16(x->RunAtOffset_0), le16(x->RunAtOffset_1), b@, pos as int);
                    }
                }
                return None;
            },
        };
        let a1 = match read_u16(b, pos + 2) {
            Some(v) => v,
            None => {
                proof {
                    assert forall|x: Section| wf_section(x) && section_tag(x) == t && #[trigger] occurs_at(payload_enc(x), b@, pos as int) implies false by {
                        lemma_occurs_concat(le16(x->RunAtOffset_0), le16(x->RunAtOffset_1), b@, pos as int);
                    }
                }
                return None;
            },
        };
        let y = Section::RunAtOffset(a0, a1);
        proof {
            lemma_occurs_concat(le16(a0), le16(a1), b@, pos as int);
            assert forall|x: Section| wf_section(x) && section_tag(x) == t && #[trigger] occurs_at(payload_enc(x), b@, pos as int) implies payload_enc(x) == payload_enc(y) by {
                lemma_occurs_concat(le16(x->RunAtOffset_0), le16(x->RunAtOffset_1), b@, pos as int);
            }
        }
        Some((y, pos + 4))
    } else if t == 6 {
        let a0 = match read_u16(b, pos) {
            Some(v) => v,
            None => {
                proof {
                    assert forall|x: Section| wf_section(x) && section_tag(x) == t && #[trigger] occurs_at(payload_enc(x), b@, pos as int) implies false by {
                        
                    }
                }
                return None;
            },
        };
        let y = Section::SectionSwitch(a0);
        Some((y, pos + 2))
    } else if t == 8 {
        let a0 = match read_u32(b, pos) {
            Some(v) => v,
            None => {
                proof {
                    assert forall|x: Section| wf_section(x) && section_tag(x) == t && #[trigger] occurs_at(payload_enc(x), b@, pos as int) implies false by {
                        
                    }
                }
                return None;
            },
        };
        let y = Section::BSS(a0);
        Some((y, pos + 4))
    } else if t == 10 {
        match decode_patch(b, pos) {
            Some((v, n)) => {
                let y = Section::Patch(v);
                Some((y, n))
            },
            None => None,
        }
    } else if t == 12 {
        match decode_xdef(b, pos) {
            Some((v, n)) => {
                let y = Section::XDEF(v);
                Some((y, n))
            },
            None => None,
        }
    } else if t == 14 {
        match decode_xref(b, pos) {
            Some((v, n)) => {
                let y = Section::XREF(v);
                Some((y, n))
            },
            None => None,
        }
    } else if t == 16 {
        match decode_lnk_header(b, pos) {
            Some((v, n)) => {
                let y = Section::LNKHeader(v);
                Some((y, n))
            },
            None => None,
        }
    } else if t == 18 {
        match decode_local_symbol(b, pos) {
            Some((v, n)) => {
                let y = Section::LocalSymbol(v);
                Some((y, n))
            },
            None => None,
        }
    } else if t == 20 {
        match decode_group_symbol(b, pos) {
            Some((v, n)) => {
                let y = Section::GroupSymbol(v);
                Some((y, n))
            },
            None => None,
        }
    } else {
        None
    }
}

fn decode_payload_1(b: &[u8], pos: usize, t: u8) -> (r: Option<(Section, usize)>)
    requires
        21 <= t <= 42,
        pos <= b@.len(),
    ensures
        r matches Some((y, n)) ==> wf_section(y) && section_tag(y) == t && n == pos + payload_enc(y).len() && occurs_at(payload_enc(y), b@, pos as int),
        forall|x: Section| wf_section(x) && section_tag(x) == t && #[trigger] occurs_at(payload_enc(x), b@, pos as int) ==> (r matches Some((y, n)) && payload_enc(y) == payload_enc(x)),
{
    let total = b.len();
    if t == 22 {
        let a0 = match read_u16(b, pos) {
            Some(v) => v,
            None => {
                proof {
                    assert forall|x: Section| wf_section(x) && section_tag(x) == t && #[trigger] occurs_at(payload_enc(x), b@, pos as int) implies false by {
                        
                    }
                }
                return None;
            },
        };
        let y = Section::ByteSizeRegister(a0);
        Some((y, pos + 2))
    } else if t == 24 {
        let a0 = match read_u16(b, pos) {
            Some(v) => v,
            None => {
                proof {
                    assert forall|x: Section| wf_section(x) && section_tag(x) == t && #[trigger] occurs_at(payload_enc(x), b@, pos as int) implies false by {
                        
                    }
                }
                return None;
            },
        };
        let y = Section::WordSizeRegister(a0);
        Some((y, pos + 2))
    } else if t == 26 {
        let a0 = match read_u16(b, pos) {
            Some(v) => v,
            None => {
                proof {
                    assert forall|x: Section| wf_section(x) && section_tag(x) == t && #[trigger] occurs_at(payload_enc(x), b@, pos as int) implies false by {
                        
                    }
                }
                return None;
            },
        };
        let y = Section::LongSizeRegister(a0);
        Some((y, pos + 2))
    } else if t == 28 {
        match decode_filename(b, pos) {
            Some((v, n)) => {
                let y = Section::Filename(v);
                Some((y, n))
            },
            None => None,
        }
    } else if t == 30 {
        let a0 = match read_u16(b, pos) {
            Some(v) => v,
            None => {
                proof {
                    assert forall|x: Section| wf_section(x) && section_tag(x) == t && #[trigger] occurs_at(payload_enc(x), b@, pos as int) implies false by {
                        lemma_occurs_concat(le16(x->SetToFile_0), le32(x->SetToFile_1), b@, pos as int);
                    }
                }
                return None;
            },
        };
        let a1 = match read_u32(b, pos + 2) {
            Some(v) => v,
            None => {
                proof {
                    assert forall|x: Section| wf_section(x) && section_tag(x) == t && #[trigger] occurs_at(payload_enc(x), b@, pos as int) implies false by {
                        lemma_occurs_concat(le16(x->SetToFile_0), le32(x->SetToFile_1), b@, pos as int);
                    }
                }
                return None;
            },
        };
        let y = Section::SetToFile(a0, a1);
        proof {
            lemma_occurs_concat(le16(a0), le32(a1), b@, pos as int);
            assert forall|x: Section| wf_section(x) && section_tag(x) == t && #[trigger] occurs_at(payload_enc(x), b@, pos as int) implies payload_enc(x) == payload_enc(y) by {
                lemma_occurs_concat(le16(x->SetToFile_0), le32(x->SetToFile_1), b@, pos as int);
            }
        }
        Some((y, pos + 6))
    } else if t == 32 {
        let a0 = match read_u32(b, pos) {
            Some(v) => v,
            None => {
                proof {
                    assert forall|x: Section| wf_section(x) && section_tag(x) == t && #[trigger] occurs_at(payload_enc(x), b@, pos as int) implies false by {
                        
                    }
                }
                return None;
            },
        };
        let y = Section::SetToLine(a0);
        Some((y, pos + 4))
    } else if t == 34 {
        let y = Section::IncrementLineNumber;
        proof {
            lemma_occurs_empty(b@, pos as int);
        }
        Some((y, pos))
    } else if t == 36 {
        let a0 = match read_u8(b, pos) {
            Some(v) => v,
            None => {
                proof {
                    assert forall|x: Section| wf_section(x) && section_tag(x) == t && #[trigger] occurs_at(payload_enc(x), b@, pos as int) implies false by {
                        
                    }
                }
                return None;
            },
        };
        let y = Section::IncrementLineNumberByte(a0);
        Some((y, pos + 1))
    } else if t == 38 {
        let a0 = match read_u32(b, pos) {
            Some(v) => v,
            None => {
                proof {
                    assert forall|x: Section| wf_section(x) && section_tag(x) == t && #[trigger] occurs_at(payload_enc(x), b@, pos as int) implies false by {
                        
                    }
                }
                return None;
            },
        };
        let y = Section::IncrementLineNumberWord(a0);
        Some((y, pos + 4))
    } else if t == 40 {
        match decode_local_symbol(b, pos) {
            Some((v, n)) => {
                let y = Section::VeryLocalSymbol(v);
                Some((y, n))
            },
            None => None,
        }
    } else if t == 42 {
        let a0 = match read_u16(b, pos) {
            Some(v) => v,
            None => {
                proof {
                    assert forall|x: Section| wf_section(x) && section_tag(x) == t && #[trigger] occurs_at(payload_enc(x), b@, pos as int) implies false by {
                        
                    }
                }
                return None;
            },
        };
        let y = Section::Set3ByteRegister(a0);
        Some((y, pos + 2))
    } else {
        None
    }
}

fn decode_payload_2(b: &[u8], pos: usize, t: u8) -> (r: Option<(Section, usize)>)
    requires
        43 <= t <= 64,
        pos <= b@.len(),
    ensures
        r matches Some((y, n)) ==> wf_section(y) && section_tag(y) == t && n == pos + payload_enc(y).len() && occurs_at(payload_enc(y), b@, pos as int),
        forall|x: Section| wf_section(x) && section_tag(x) == t && #[trigger] occurs_at(payload_enc(x), b@, pos as int) ==> (r matches Some((y, n)) && payload_enc(y) == payload_enc(x)),
{
    let total = b.len();
    if t == 44 {
        match decode_set_mx_info(b, pos) {
            Some((v, n)) => {
                let y = Section::SetMXInfo(v);
                Some((y, n))
            },
            None => None,
        }
    } else if t == 46 {
        let a0 = match read_u8(b, pos) {
            Some(v) => v,
            None => {
                proof {
                    assert forall|x: Section| wf_section(x) && section_tag(x) == t && #[trigger] occurs_at(payload_enc(x), b@, pos as int) implies false by {
                        
                    }
                }
                return None;
            },
        };
        let y = Section::CPU(a0);
        Some((y, pos + 1))
    } else if t == 48 {
        match decode_xbss(b, pos) {
            Some((v, n)) => {
                let y = Section::XBSS(v);
                Some((y, n))
            },
            None => None,
        }
    } else if t == 50 {
        let a0 = match read_u16(b, pos) {
            Some(v) => v,
            None => {
                proof {
                    assert forall|x: Section| wf_section(x) && section_tag(x) == t && #[trigger] occurs_at(payload_enc(x), b@, pos as int) implies false by {
                        
                    }
                }
                return None;
            },
        };
        let y = Section::IncSLDLineNum(a0);
        Some((y, pos + 2))
    } else if t == 52 {
        let a0 = match read_u16(b, pos) {
            Some(v) => v,
            None => {
                proof {
                    assert forall|x: Section| wf_section(x) && section_tag(x) == t && #[trigger] occurs_at(payload_enc(x), b@, pos as int) implies false by {
                        lemma_occurs_concat(le16(x->IncSLDLineNumByte_0), seq![x->IncSLDLineNumByte_1], b@, pos as int);
                    }
                }
                return None;
            },
        };
        let a1 = match read_u8(b, pos + 2) {
            Some(v) => v,
            None => {
                proof {
                    assert forall|x: Section| wf_section(x) && section_tag(x) == t && #[trigger] occurs_at(payload_enc(x), b@, pos as int) implies false by {
                        lemma_occurs_concat(le16(x->IncSLDLineNumByte_0), seq![x->IncSLDLineNumByte_1], b@, pos as int);
                    }
                }
                return None;
            },
        };
        let y = Section::IncSLDLineNumByte(a0, a1);
        proof {
            lemma_occurs_concat(le16(a0), seq![a1], b@, pos as int);
            assert forall|x: Section| wf_section(x) && section_tag(x) == t && #[trigger] occurs_at(payload_enc(x), b@, pos as int) implies payload_enc(x) == payload_enc(y) by {
                lemma_occurs_concat(le16(x->IncSLDLineNumByte_0), seq![x->IncSLDLineNumByte_1], b@, pos as int);
            }
        }
        Some((y, pos + 3))
    } else if t == 54 {
        let a0 = match read_u16(b, pos) {
            Some(v) => v,
            None => {
                proof {
                    assert forall|x: Section| wf_section(x) && section_tag(x) == t && #[trigger] occurs_at(payload_enc(x), b@, pos as int) implies false by {
                        lemma_occurs_concat(le16(x->IncSLDLineNumWord_0), le32(x->IncSLDLineNumWord_1), b@, pos as int);
                    }
                }
                return None;
            },
        };
        let a1 = match read_u32(b, pos + 2) {
            Some(v) => v,
            None => {
                proof {
                    assert forall|x: Section| wf_section(x) && section_tag(x) == t && #[trigger] occurs_at(payload_enc(x), b@, pos as int) implies false by {
                        lemma_occurs_concat(le16(x->IncSLDLineNumWord_0), le32(x->IncSLDLineNumWord_1), b@, pos as int);
                    }
                }
                return None;
            },
        };
        let y = Section::IncSLDLineNumWord(a0, a1);
        proof {
            lemma_occurs_concat(le16(a0), le32(a1), b@, pos as int);
            assert forall|x: Section| wf_section(x) && section_tag(x) == t && #[trigger] occurs_at(payload_enc(x), b@, pos as int) implies payload_enc(x) == payload_enc(y) by {
                lemma_occurs_concat(le16(x->IncSLDLineNumWord_0), le32(x->IncSLDLineNumWord_1), b@, pos as int);
            }
        }
        Some((y, pos + 6))
    } else if t == 56 {
        match decode_set_sld_line_num(b, pos) {
            Some((v, n)) => {
                let y = Section::SetSLDLineNum(v);
                Some((y, n))
            },
            None => None,
        }
    } else if t == 58 {
        match decode_set_sld_line_num_file(b, pos) {
            Some((v, n)) => {
                let y = Section::SetSLDLineNumFile(v);
                Some((y, n))
            },
            None => None,
        }
    } else if t == 60 {
        let a0 = match read_u16(b, pos) {
            Some(v) => v,
            None => {
                proof {
                    assert forall|x: Section| wf_section(x) && section_tag(x) == t && #[trigger] occurs_at(payload_enc(x), b@, pos as int) implies false by {
                        
                    }
                }
                return None;
            },
        };
        let y = Section::EndSLDInfo(a0);
        Some((y, pos + 2))
    } else if t == 62 {
        let a0 = match read_u32(b, pos) {
            Some(v) => v,
            None => {
                proof {
                    assert forall|x: Section| wf_section(x) && section_tag(x) == t && #[trigger] occurs_at(payload_enc(x), b@, pos as int) implies false by {
                        
                    }
                }
                return None;
            },
        };
        let y = Section::RepeatByte(a0);
        Some((y, pos + 4))
    } else if t == 64 {
        let a0 = match read_u32(b, pos) {
            Some(v) => v,
            None => {
                proof {
                    assert forall|x: Section| wf_section(x) && section_tag(x) == t && #[trigger] occurs_at(payload_enc(x), b@, pos as int) implies false by {
                        
                    }
                }
                return None;
            },
        };
        let y = Section::RepeatWord(a0);
        Some((y, pos + 4))
    } else {
        None
    }
}

fn decode_payload_3(b: &[u8], pos: usize, t: u8) -> (r: Option<(Section, usize)>)
    requires
        65 <= t <= 84,
        pos <= b@.len(),
    ensures
        r matches Some((y, n)) ==> wf_section(y) && section_tag(y) == t && n == pos + payload_enc(y).len() && occurs_at(payload_enc(y), b@, pos as int),
        forall|x: Section| wf_section(x) && section_tag(x) == t && #[trigger] occurs_at(payload_enc(x), b@, pos as int) ==> (r matches Some((y, n)) && payload_enc(y) == payload_enc(x)),
{
    let total = b.len();
    if t == 66 {
        None
    } else if t == 68 {
        None
    } else if t == 70 {
        None
    } else if t == 72 {
        let a0 = match read_u32(b, pos) {
            Some(v) => v,
            None => {
                proof {
                    assert forall|x: Section| wf_section(x) && section_tag(x) == t && #[trigger] occurs_at(payload_enc(x), b@, pos as int) implies false by {
                        
                    }
                }
                return None;
            },
        };
        let y = Section::Repeat3Byte(a0);
        Some((y, pos + 4))
    } else if t == 74 {
        match decode_function_start(b, pos) {
            Some((v, n)) => {
                let y = Section::FunctionStart(v);
                Some((y, n))
            },
            None => None,
        }
    } else if t == 76 {
        match decode_section_offset_line(b, pos) {
            Some((v, n)) => {
                let y = Section::FunctionEnd(v);
                Some((y, n))
            },
            None => None,
        }
    } else if t == 78 {
        match decode_section_offset_line(b, pos) {
            Some((v, n)) => {
                let y = Section::BlockStart(v);
                Some((y, n))
            },
            None => None,
        }
    } else if t == 80 {
        match decode_section_offset_line(b, pos) {
            Some((v, n)) => {
                let y = Section::BlockEnd(v);
                Some((y, n))
            },
            None => None,
        }
    } else if t == 82 {
        match decode_def(b, pos) {
            Some((v, n)) => {
                let y = Section::Def(v);
                Some((y, n))
            },
            None => None,
        }
    } else if t == 84 {
        match decode_def2(b, pos) {
            Some((v, n)) => {
                let y = Section::Def2(v);
                Some((y, n))
            },
            None => None,
        }
    } else {
        None
    }
}

/// Reads the record that starts at `pos`: it succeeds exactly where the bytes of
/// some readable record stand there, and returns a record with those bytes.
pub fn decode_section(b: &[u8], pos: usize) -> (r: Option<(Section, usize)>)
    ensures
        r matches Some((y, n)) ==> wf_section(y) && n == pos + enc_section(y).len() && occurs_at(enc_section(y), b@, pos as int),
        forall|x: Section| wf_section(x) && #[trigger] occurs_at(enc_section(x), b@, pos as int) ==> (r matches Some((y, n)) && enc_section(y) == enc_section(x)),
{
    let total = b.len();
    let t = match read_u8(b, pos) {
        Some(t) => t,
        None => {
            proof {
                assert forall|x: Section| wf_section(x) && #[trigger] occurs_at(enc_section(x), b@, pos as int) implies false by {
                    lemma_occurs_cons(section_tag(x), payload_enc(x), b@, pos as int);
                }
            }
            return None;
        },
    };
    proof {
        assert forall|x: Section| #[trigger] occurs_at(enc_section(x), b@, pos as int) implies section_tag(x) == t && occurs_at(payload_enc(x), b@, pos + 1) by {
            lemma_occurs_cons(section_tag(x), payload_enc(x), b@, pos as int);
        }
    }
    let r = if t <= 20 {
        decode_payload_0(b, pos + 1, t)
    } else if t <= 42 {
        decode_payload_1(b, pos + 1, t)
    } else if t <= 64 {
        decode_payload_2(b, pos + 1, t)
    } else if t <= 84 {
        decode_payload_3(b, pos + 1, t)
    } else {
        None
    };
    match r {
        Some((y, n)) => {
            proof {
                lemma_occurs_cons(t, payload_enc(y), b@, pos as int);
            }
            Some((y, n))
        },
        None => None,
    }
}

} // verus!

verus! {

impl LNKHeader {
    /// The section's type name, such as `.text`. Bytes that are not UTF-8 become U+FFFD.
    pub fn kind_name(&self) -> (r: String)
        ensures
            r@ == utf8_lossy(self.kind_name@),
    {
        lossy_string(self.kind_name.as_slice())
    }

}

impl LocalSymbol {
    /// The symbol's name. Bytes that are not UTF-8 become U+FFFD.
    pub fn name(&self) -> (r: String)
        ensures
            r@ == utf8_lossy(self.name@),
    {
        lossy_string(self.name.as_slice())
    }

}

impl GroupSymbol {
    /// The symbol's name. Bytes that are not UTF-8 become U+FFFD.
    pub fn name(&self) -> (r: String)
        ensures
            r@ == utf8_lossy(self.name@),
    {
        lossy_string(self.name.as_slice())
    }

}

impl XDEF {
    /// The exported symbol's name. Bytes that are not UTF-8 become U+FFFD.
    pub fn symbol_name(&self) -> (r: String)
        ensures
            r@ == utf8_lossy(self.symbol_name@),
    {
        lossy_string(self.symbol_name.as_slice())
    }

}

impl XREF {
    /// The imported symbol's name. Bytes that are not UTF-8 become U+FFFD.
    pub fn symbol_name(&self) -> (r: String)
        ensures
            r@ == utf8_lossy(self.symbol_name@),
    {
        lossy_string(self.symbol_name.as_slice())
    }

}

impl Filename {
    /// The file name. Bytes that are not UTF-8 become U+FFFD.
    pub fn name(&self) -> (r: String)
        ensures
            r@ == utf8_lossy(self.name@),
    {
        lossy_string(self.name.as_slice())
    }

    /// The number the file is known by.
    pub fn number(&self) -> (r: u16)
        ensures
            r == self.number,
    {
        self.number
    }

}

impl XBSS {
    /// The block's name. Bytes that are not UTF-8 become U+FFFD.
    pub fn name(&self) -> (r: String)
        ensures
            r@ == utf8_lossy(self.name@),
    {
        lossy_string(self.name.as_slice())
    }

}

impl FunctionStart {
    /// The function's name. Bytes that are not UTF-8 become U+FFFD.
    pub fn name(&self) -> (r: String)
        ensures
            r@ == utf8_lossy(self.name@),
    {
        lossy_string(self.name.as_slice())
    }

}

impl Def {
    /// The defined name. Bytes that are not UTF-8 become U+FFFD.
    pub fn name(&self) -> (r: String)
        ensures
            r@ == utf8_lossy(self.name@),
    {
        lossy_string(self.name.as_slice())
    }

}

impl Def2 {
    /// The definition's tag. Bytes that are not UTF-8 become U+FFFD.
    pub fn tag(&self) -> (r: String)
        ensures
            r@ == utf8_lossy(self.tag@),
    {
        lossy_string(self.tag.as_slice())
    }

    /// The defined name. Bytes that are not UTF-8 become U+FFFD.
    pub fn name(&self) -> (r: String)
        ensures
            r@ == utf8_lossy(self.name@),
    {
        lossy_string(self.name.as_slice())
    }

}

impl Code {
    /// The machine code; its instruction set is the one the `CPU` record names.
    pub fn code(&self) -> (r: &Vec<u8>)
        ensures
            r@ == self.code@,
    {
        &self.code
    }

    /// The length of the code.
    pub fn size(&self) -> (r: u16)
        requires
            wf_code(*self),
        ensures
            r == self.code@.len(),
    {
        self.code.len() as u16
    }
}

} // verus!
