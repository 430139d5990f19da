//! Whole files: telling an archive from an object file by its magic, reading
//! either from all of the bytes given, and writing them back.
use vstd::prelude::*;

use crate::archive::{
    LIB, Module, enc_lib, enc_module, enc_modules, lib_magic, wf_lib, wf_module, decode_module,
    encode_module, lemma_modules_at,
};
use crate::bytes::{occurs_at, lemma_occurs_bounds, lemma_occurs_concat, lemma_occurs_empty, lemma_occurs_exact};
use crate::section::Section;
use crate::object::{records_fail_at, OBJ, ObjFailure, enc_obj, obj_magic, wf_obj, decode_obj_detail, encode_obj};
use crate::text::{dec, hex, push_dec, push_hex, push_str, string_of};

verus! {

/// Why bytes could not be read as an archive or an object file.
#[derive(Clone, Debug, PartialEq, Eq)]
pub enum DecodeError {
    /// Fewer than three bytes: no magic to tell the kind of file by.
    TooSmall,
    /// The first three bytes are neither `LIB` nor `LNK`.
    UnrecognizedMagic(Vec<u8>),
    /// The first three bytes are not the magic of the kind asked for.
    BadMagic(Vec<u8>),
    /// The input ends inside the header, at this offset.
    UnexpectedEnd(usize),
    /// No record could be read at this offset of an object file.
    NoVariantMatched(usize),
    /// An archive whose first module cannot be read.
    EmptyArchive,
    /// No module could be read at this offset of an archive.
    BadModule(usize),
    /// Bytes follow the end of an object file at this offset.
    TrailingData(usize),
}

/// A file of either kind.
#[derive(Clone, Debug, PartialEq, Eq)]
pub enum Type {
    LIB(LIB),
    OBJ(OBJ),
}

/// `[a, b, c]`: bytes in decimal, as a list.
pub open spec fn byte_list_text(s: Seq<u8>) -> Seq<char> {
    seq!['['] + byte_items_text(s) + seq![']']
}

/// The bytes of `s` in decimal, separated by `, `.
pub open spec fn byte_items_text(s: Seq<u8>) -> Seq<char>
    decreases s.len(),
{
    if s.len() == 0 {
        Seq::empty()
    } else if s.len() == 1 {
        dec(s[0] as nat)
    } else {
        byte_items_text(s.drop_last()) + ", "@ + dec(s.last() as nat)
    }
}

/// The message of an error.
pub open spec fn error_text(e: DecodeError) -> Seq<char> {
    match e {
        DecodeError::TooSmall => "File too small to contain valid PSY-Q magic number"@,
        DecodeError::UnrecognizedMagic(m) => "Unrecognized magic "@ + byte_list_text(m@),
        DecodeError::BadMagic(m) => "bad magic at 0x0: "@ + byte_list_text(m@),
        DecodeError::UnexpectedEnd(p) => "unexpected end of input at 0x"@ + hex(p as nat),
        DecodeError::NoVariantMatched(p) => " 0: Error: no variants matched at 0x"@ + hex(p as nat)
            + "..."@,
        DecodeError::EmptyArchive => "assertion failed: `! objs.is_empty()` at 0x0"@,
        DecodeError::BadModule(p) => "no module could be read at 0x"@ + hex(p as nat),
        DecodeError::TrailingData(p) => "unexpected data after the object file at 0x"@ + hex(
            p as nat,
        ),
    }
}

fn push_byte_list(out: &mut Vec<char>, s: &Vec<u8>)
    ensures
        final(out)@ == old(out)@ + byte_list_text(s@),
{
    out.push('[');
    let ghost start = out@;
    let mut i: usize = 0;
    while i < s.len()
        invariant
            i <= s@.len(),
            out@ == start + byte_items_text(s@.take(i as int)),
        decreases s@.len() - i,
    {
        if i > 0 {
            push_str(out, ", ");
        }
        push_dec(out, s[i] as u64);
        proof {
            assert(s@.take(i + 1).drop_last() =~= s@.take(i as int));
            if i == 0 {
                assert(byte_items_text(s@.take(0)) =~= Seq::<char>::empty());
            }
        }
        i = i + 1;
        assert(out@ =~= start + byte_items_text(s@.take(i as int)));
    }
    assert(s@.take(s@.len() as int) =~= s@);
    out.push(']');
    assert(out@ =~= old(out)@ + byte_list_text(s@));
}

impl DecodeError {
    /// The message of this error.
    pub fn message(&self) -> (r: String)
        ensures
            r@ == error_text(*self),
    {
        let mut out: Vec<char> = Vec::new();
        match self {
            DecodeError::TooSmall => push_str(
                &mut out,
                "File too small to contain valid PSY-Q magic number",
            ),
            DecodeError::UnrecognizedMagic(m) => {
                push_str(&mut out, "Unrecognized magic ");
                push_byte_list(&mut out, m);
            },
            DecodeError::BadMagic(m) => {
                push_str(&mut out, "bad magic at 0x0: ");
                push_byte_list(&mut out, m);
            },
            DecodeError::UnexpectedEnd(p) => {
                push_str(&mut out, "unexpected end of input at 0x");
                push_hex(&mut out, *p as u64);
            },
            DecodeError::NoVariantMatched(p) => {
                push_str(&mut out, " 0: Error: no variants matched at 0x");
                push_hex(&mut out, *p as u64);
                push_str(&mut out, "...");
            },
            DecodeError::EmptyArchive => push_str(
                &mut out,
                "assertion failed: `! objs.is_empty()` at 0x0",
            ),
            DecodeError::BadModule(p) => {
                push_str(&mut out, "no module could be read at 0x");
                push_hex(&mut out, *p as u64);
            },
            DecodeError::TrailingData(p) => {
                push_str(&mut out, "unexpected data after the object file at 0x");
                push_hex(&mut out, *p as u64);
            },
        }
        assert(out@ =~= error_text(*self));
        string_of(out)
    }
}

/// The first three bytes.
fn magic_of(b: &[u8]) -> (r: Vec<u8>)
    requires
        b@.len() >= 3,
    ensures
        r@ == b@.subrange(0, 3),
{
    let r = vec![b[0], b[1], b[2]];
    assert(r@ =~= b@.subrange(0, 3));
    r
}

/// No readable module starts at `pos`.
pub open spec fn no_module_at(b: Seq<u8>, pos: int) -> bool {
    forall|m: Module| wf_module(m) ==> !#[trigger] occurs_at(enc_module(m), b, pos)
}

/// A readable object file of `n` bytes starts `b`, and more bytes follow it.
pub open spec fn obj_then_more(b: Seq<u8>, n: int) -> bool {
    exists|o: OBJ| wf_obj(o) && #[trigger] occurs_at(enc_obj(o), b, 0) && n == enc_obj(o).len() && n
        < b.len()
}

/// A readable object file starts `b`, and more bytes follow it.
pub open spec fn obj_prefix(b: Seq<u8>) -> bool {
    exists|o: OBJ| wf_obj(o) && #[trigger] occurs_at(enc_obj(o), b, 0) && enc_obj(o).len() < b.len()
}

/// `b` holds exactly the bytes of a readable object file.
pub open spec fn reads_as_obj(b: Seq<u8>, o: OBJ) -> bool {
    wf_obj(o) && enc_obj(o) == b
}

/// `b` holds exactly the bytes of a readable archive.
pub open spec fn reads_as_lib(b: Seq<u8>, l: LIB) -> bool {
    wf_lib(l) && enc_lib(l) == b
}

/// Reads an object file from all of `b`. It succeeds exactly where `b` is the
/// bytes of an object file that ends with its one `NOP`, with nothing after it,
/// and returns that object file.
pub fn read_obj(b: &[u8]) -> (r: Result<OBJ, DecodeError>)
    ensures
        r matches Ok(o) ==> reads_as_obj(b@, o),
        forall|x: OBJ| #[trigger] reads_as_obj(b@, x) ==> r is Ok,
        r matches Err(DecodeError::BadMagic(m)) ==> m@ == b@.subrange(0, 3),
        r matches Err(DecodeError::BadMagic(_)) <==> (b@.len() >= 3 && b@.subrange(0, 3)
            != obj_magic()),
        r matches Err(DecodeError::UnexpectedEnd(_)) <==> (b@.len() < 4 && !(b@.len() >= 3
            && b@.subrange(0, 3) != obj_magic())),
        r matches Err(DecodeError::NoVariantMatched(at)) ==> b@.len() >= 4 && b@.subrange(0, 3)
            == obj_magic() && records_fail_at(b@, 4, at as int),
        r matches Err(DecodeError::TrailingData(n)) ==> obj_then_more(b@, n as int),
        r matches Err(DecodeError::TrailingData(_)) <==> obj_prefix(b@),
        r is Err ==> (r matches Err(DecodeError::BadMagic(_)) || r matches Err(
            DecodeError::UnexpectedEnd(_),
        ) || r matches Err(DecodeError::NoVariantMatched(_)) || r matches Err(
            DecodeError::TrailingData(_),
        )),
{
    proof {
        assert forall|x: OBJ| #[trigger] reads_as_obj(b@, x) implies occurs_at(enc_obj(x), b@, 0) by {
            lemma_occurs_exact(enc_obj(x), b@, 0);
            assert(b@.subrange(0, b@.len() as int) =~= b@);
        }
    }
    match decode_obj_detail(b, 0) {
        Ok((o, n)) => {
            if n == b.len() {
                proof {
                    lemma_occurs_exact(enc_obj(o), b@, 0);
                    assert(b@.subrange(0, b@.len() as int) =~= b@);
                    assert forall|x: OBJ| wf_obj(x) && #[trigger] occurs_at(enc_obj(x), b@, 0) implies enc_obj(x).len() >= b@.len() by {}
                }
                Ok(o)
            } else {
                proof {
                    lemma_occurs_bounds(enc_obj(o), b@, 0);
                    assert(obj_then_more(b@, n as int));
                    assert(obj_prefix(b@));
                }
                Err(DecodeError::TrailingData(n))
            }
        },
        Err(ObjFailure::Short) => Err(DecodeError::UnexpectedEnd(b.len())),
        Err(ObjFailure::Magic) => Err(DecodeError::BadMagic(magic_of(b))),
        Err(ObjFailure::Record(at)) => Err(DecodeError::NoVariantMatched(at)),
    }
}

/// An archive's modules stand at `pos` and fill `b` up to its end.
proof fn lemma_whole(b: Seq<u8>, x: LIB)
    requires
        reads_as_lib(b, x),
    ensures
        occurs_at(enc_modules(x.objs@), b, 4),
        b.len() == 4 + enc_modules(x.objs@).len(),
        b.subrange(0, 3) == lib_magic(),
        b[3] == x.version,
{
    lemma_occurs_exact(enc_lib(x), b, 0);
    assert(b.subrange(0, b.len() as int) =~= b);
    lemma_occurs_concat(lib_magic() + seq![x.version], enc_modules(x.objs@), b, 0);
    assert(b.subrange(0, 3) =~= (lib_magic() + seq![x.version] + enc_modules(x.objs@)).subrange(
        0,
        3,
    ));
    assert(b[3] == (lib_magic() + seq![x.version] + enc_modules(x.objs@))[3]);
}

proof fn lemma_module_nonempty(m: Module)
    ensures
        enc_module(m).len() >= 20,
{
}

/// Reads an archive from all of `b`: the magic, the version, then modules one
/// after the other up to the end. It succeeds exactly where `b` is the bytes of
/// an archive of one or more modules, and returns that archive. An archive
/// whose first module cannot be read is refused as empty.
#[verifier::rlimit(100)]
pub fn read_lib(b: &[u8]) -> (r: Result<LIB, DecodeError>)
    ensures
        r matches Ok(l) ==> reads_as_lib(b@, l),
        forall|x: LIB| #[trigger] reads_as_lib(b@, x) ==> r is Ok,
        r matches Err(DecodeError::BadMagic(m)) ==> m@ == b@.subrange(0, 3),
        r matches Err(DecodeError::BadMagic(_)) <==> (b@.len() >= 3 && b@.subrange(0, 3)
            != lib_magic()),
        r matches Err(DecodeError::UnexpectedEnd(_)) <==> (b@.len() < 4 && !(b@.len() >= 3
            && b@.subrange(0, 3) != lib_magic())),
        r matches Err(DecodeError::EmptyArchive) <==> (b@.len() >= 4 && b@.subrange(0, 3)
            == lib_magic() && no_module_at(b@, 4)),
        r is Err ==> (r matches Err(DecodeError::BadMagic(_)) || r matches Err(
            DecodeError::UnexpectedEnd(_),
        ) || r matches Err(DecodeError::EmptyArchive) || r matches Err(
            DecodeError::BadModule(_),
        )),
{
    let total = b.len();
    if total < 3 {
        proof {
            assert forall|x: LIB| #[trigger] reads_as_lib(b@, x) implies false by {
                lemma_whole(b@, x);
            }
        }
        return Err(DecodeError::UnexpectedEnd(total));
    }
    if !(b[0] == 76 && b[1] == 73 && b[2] == 66) {
        proof {
            assert(b@.subrange(0, 3)[0] == b@[0]);
            assert(b@.subrange(0, 3)[1] == b@[1]);
            assert(b@.subrange(0, 3)[2] == b@[2]);
            assert forall|x: LIB| #[trigger] reads_as_lib(b@, x) implies false by {
                lemma_whole(b@, x);
            }
        }
        return Err(DecodeError::BadMagic(magic_of(b)));
    }
    assert(b@.subrange(0, 3) =~= lib_magic());
    if total < 4 {
        proof {
            assert forall|x: LIB| #[trigger] reads_as_lib(b@, x) implies false by {
                lemma_whole(b@, x);
            }
        }
        return Err(DecodeError::UnexpectedEnd(total));
    }
    let version = b[3];
    proof {
        assert forall|x: LIB| #[trigger] reads_as_lib(b@, x) implies x.version == version
            && occurs_at(enc_modules(x.objs@), b@, 4) && 4 + enc_modules(x.objs@).len() == b@.len()
            && (forall|i: int| 0 <= i < x.objs@.len() ==> wf_module(#[trigger] x.objs@[i])) by {
            lemma_whole(b@, x);
        }
    }
    let (objs, p) = decode_modules(b, 4);
    if objs.len() == 0 {
        proof {
            assert forall|m: Module| wf_module(m) implies !#[trigger] occurs_at(
                enc_module(m),
                b@,
                4,
            ) by {
                lemma_module_nonempty(m);
                lemma_occurs_bounds(enc_module(m), b@, 4);
            }
            assert forall|x: LIB| #[trigger] reads_as_lib(b@, x) implies false by {
                lemma_whole(b@, x);
            }
        }
        return Err(DecodeError::EmptyArchive);
    }
    proof {
        lemma_modules_at(objs@, 0, b@, 4);
        assert(enc_modules(objs@.take(0)) =~= Seq::<u8>::empty());
        assert(wf_module(objs@[0]) && occurs_at(enc_module(objs@[0]), b@, 4));
    }
    if p < total {
        proof {
            assert forall|x: LIB| #[trigger] reads_as_lib(b@, x) implies false by {
                lemma_whole(b@, x);
            }
        }
        return Err(DecodeError::BadModule(p));
    }
    let l = LIB { version, objs };
    proof {
        lemma_occurs_exact(enc_modules(l.objs@), b@, 4);
        assert(b@ =~= lib_magic() + seq![version] + enc_modules(l.objs@));
    }
    Ok(l)
}

/// Reads modules from `start` on, one after the other, while one can be read
/// and the input lasts.
fn decode_modules(b: &[u8], start: usize) -> (r: (Vec<Module>, usize))
    requires
        start <= b@.len(),
    ensures
        r.1 == start + enc_modules(r.0@).len(),
        occurs_at(enc_modules(r.0@), b@, start as int),
        forall|i: int| 0 <= i < r.0@.len() ==> wf_module(#[trigger] r.0@[i]),
        r.1 < b@.len() ==> forall|m: Module| wf_module(m) ==> !#[trigger] occurs_at(enc_module(m), b@, r.1 as int),
        forall|x: Seq<Module>|
            (forall|i: int| 0 <= i < x.len() ==> wf_module(#[trigger] x[i])) && #[trigger] occurs_at(enc_modules(x), b@, start as int)
                && start + enc_modules(x).len() == b@.len() ==> r.1 == b@.len() && enc_modules(r.0@) == enc_modules(x),
{
    let total = b.len();
    let mut acc: Vec<Module> = Vec::new();
    let mut p: usize = start;
    proof {
        assert(enc_modules(acc@) =~= Seq::<u8>::empty());
        lemma_occurs_empty(b@, start as int);
    }
    while p < total
        invariant
            total == b@.len(),
            start <= p <= total,
            p == start + enc_modules(acc@).len(),
            occurs_at(enc_modules(acc@), b@, start as int),
            forall|i: int| 0 <= i < acc@.len() ==> wf_module(#[trigger] acc@[i]),
            forall|x: Seq<Module>|
                (forall|i: int| 0 <= i < x.len() ==> wf_module(#[trigger] x[i])) && #[trigger] occurs_at(enc_modules(x), b@, start as int)
                    && start + enc_modules(x).len() == b@.len() ==> acc@.len() <= x.len()
                    && enc_modules(x.take(acc@.len() as int)) == enc_modules(acc@),
        decreases total - p,
    {
        let ghost k = acc@.len() as int;
        proof {
            assert forall|x: Seq<Module>|
                (forall|i: int| 0 <= i < x.len() ==> wf_module(#[trigger] x[i])) && #[trigger] occurs_at(enc_modules(x), b@, start as int)
                    && start + enc_modules(x).len() == b@.len() implies k < x.len()
                && occurs_at(enc_module(x[k]), b@, p as int) && wf_module(x[k]) by {
                if k == x.len() {
                    assert(x.take(k) =~= x);
                }
                lemma_modules_at(x, k, b@, start as int);
            }
        }
        match decode_module(b, p) {
            None => {
                return (acc, p);
            },
            Some((m, n)) => {
                let ghost prev = acc@;
                acc.push(m);
                proof {
                    assert(acc@.drop_last() =~= prev);
                    lemma_occurs_concat(enc_modules(prev), enc_module(m), b@, start as int);
                    lemma_occurs_bounds(enc_module(m), b@, p as int);
                    lemma_module_nonempty(m);
                    assert forall|x: Seq<Module>|
                        (forall|i: int| 0 <= i < x.len() ==> wf_module(#[trigger] x[i])) && #[trigger] occurs_at(enc_modules(x), b@, start as int)
                            && start + enc_modules(x).len() == b@.len() implies enc_modules(x.take(k + 1)) == enc_modules(acc@) by {
                        lemma_modules_at(x, k, b@, start as int);
                        assert(x.take(k + 1).drop_last() =~= x.take(k));
                    }
                }
                p = n;
            },
        }
    }
    proof {
        assert forall|x: Seq<Module>|
            (forall|i: int| 0 <= i < x.len() ==> wf_module(#[trigger] x[i])) && #[trigger] occurs_at(enc_modules(x), b@, start as int)
                && start + enc_modules(x).len() == b@.len() implies enc_modules(acc@) == enc_modules(x) by {
            if acc@.len() < x.len() {
                lemma_modules_at(x, acc@.len() as int, b@, start as int);
                lemma_module_nonempty(x[acc@.len() as int]);
                lemma_occurs_bounds(enc_module(x[acc@.len() as int]), b@, p as int);
            }
            assert(x.take(acc@.len() as int) =~= x);
        }
    }
    (acc, p)
}

/// Reads an archive or an object file from all of `b`, as its magic says.
pub fn read(b: &[u8]) -> (r: Result<Type, DecodeError>)
    ensures
        r matches Err(DecodeError::TooSmall) <==> b@.len() < 3,
        r matches Err(DecodeError::UnrecognizedMagic(m)) ==> m@ == b@.subrange(0, 3),
        r matches Err(DecodeError::UnrecognizedMagic(_)) <==> (b@.len() >= 3 && b@.subrange(0, 3)
            != lib_magic() && b@.subrange(0, 3) != obj_magic()),
        r matches Err(DecodeError::EmptyArchive) <==> (b@.len() >= 4 && b@.subrange(0, 3)
            == lib_magic() && no_module_at(b@, 4)),
        r matches Err(DecodeError::NoVariantMatched(at)) ==> b@.len() >= 4 && b@.subrange(0, 3)
            == obj_magic() && records_fail_at(b@, 4, at as int),
        r matches Err(DecodeError::TrailingData(n)) ==> b@.subrange(0, 3) == obj_magic()
            && obj_then_more(b@, n as int),
        b@.len() >= 3 && b@.subrange(0, 3) == obj_magic() ==> (r matches Err(
            DecodeError::TrailingData(_),
        ) <==> obj_prefix(b@)),
        r matches Err(DecodeError::UnexpectedEnd(_)) <==> (b@.len() == 3 && (b@.subrange(0, 3)
            == lib_magic() || b@.subrange(0, 3) == obj_magic())),
        b@.len() >= 3 && b@.subrange(0, 3) == obj_magic() && r is Err ==> (r matches Err(
            DecodeError::NoVariantMatched(_),
        ) || r matches Err(DecodeError::TrailingData(_)) || r matches Err(
            DecodeError::UnexpectedEnd(_),
        )),
        b@.len() >= 3 && b@.subrange(0, 3) == lib_magic() && r is Err ==> (r matches Err(
            DecodeError::EmptyArchive,
        ) || r matches Err(DecodeError::BadModule(_)) || r matches Err(
            DecodeError::UnexpectedEnd(_),
        )),
        r matches Ok(Type::LIB(l)) ==> reads_as_lib(b@, l),
        r matches Ok(Type::OBJ(o)) ==> reads_as_obj(b@, o),
        forall|x: LIB| #[trigger] reads_as_lib(b@, x) ==> r is Ok,
        forall|x: OBJ| #[trigger] reads_as_obj(b@, x) ==> r is Ok,
{
    if b.len() < 3 {
        proof {
            assert forall|x: LIB| #[trigger] reads_as_lib(b@, x) implies false by {
                lemma_whole(b@, x);
            }
            assert forall|x: OBJ| #[trigger] reads_as_obj(b@, x) implies false by {
                assert(enc_obj(x).len() >= 3);
            }
        }
        return Err(DecodeError::TooSmall);
    }
    proof {
        assert(b@.subrange(0, 3)[0] == b@[0]);
        assert(b@.subrange(0, 3)[1] == b@[1]);
        assert(b@.subrange(0, 3)[2] == b@[2]);
    }
    if b[0] == 76 && b[1] == 73 && b[2] == 66 {
        assert(b@.subrange(0, 3) =~= lib_magic());
        proof {
            assert forall|x: OBJ| #[trigger] reads_as_obj(b@, x) implies false by {
                assert(b@.subrange(0, 3) =~= enc_obj(x).subrange(0, 3));
                assert(enc_obj(x)[1] == 78u8);
            }
        }
        match read_lib(b) {
            Ok(l) => Ok(Type::LIB(l)),
            Err(e) => Err(e),
        }
    } else if b[0] == 76 && b[1] == 78 && b[2] == 75 {
        assert(b@.subrange(0, 3) =~= obj_magic());
        proof {
            assert forall|x: LIB| #[trigger] reads_as_lib(b@, x) implies false by {
                lemma_whole(b@, x);
            }
        }
        match read_obj(b) {
            Ok(o) => Ok(Type::OBJ(o)),
            Err(e) => Err(e),
        }
    } else {
        proof {
            assert forall|x: LIB| #[trigger] reads_as_lib(b@, x) implies false by {
                lemma_whole(b@, x);
            }
            assert forall|x: OBJ| #[trigger] reads_as_obj(b@, x) implies false by {
                assert(b@.subrange(0, 3) =~= enc_obj(x).subrange(0, 3));
                assert(enc_obj(x)[0] == 76u8);
                assert(enc_obj(x)[1] == 78u8);
                assert(enc_obj(x)[2] == 75u8);
            }
        }
        Err(DecodeError::UnrecognizedMagic(magic_of(b)))
    }
}

/// The bytes of an object file.
pub fn write_obj(o: &OBJ) -> (r: Vec<u8>)
    requires
        wf_obj(*o),
    ensures
        r@ == enc_obj(*o),
{
    let mut out: Vec<u8> = Vec::new();
    encode_obj(o, &mut out);
    assert(out@ =~= enc_obj(*o));
    out
}

/// The bytes of an archive.
pub fn write_lib(l: &LIB) -> (r: Vec<u8>)
    requires
        wf_lib(*l),
    ensures
        r@ == enc_lib(*l),
{
    let mut out: Vec<u8> = Vec::new();
    out.push(76);
    out.push(73);
    out.push(66);
    out.push(l.version);
    let mut i: usize = 0;
    while i < l.objs.len()
        invariant
            wf_lib(*l),
            i <= l.objs@.len(),
            out@ == lib_magic() + seq![l.version] + enc_modules(l.objs@.take(i as int)),
        decreases l.objs@.len() - i,
    {
        encode_module(&l.objs[i], &mut out);
        proof {
            assert(l.objs@.take(i + 1).drop_last() =~= l.objs@.take(i as int));
        }
        i = i + 1;
        assert(out@ =~= lib_magic() + seq![l.version] + enc_modules(l.objs@.take(i as int)));
    }
    assert(l.objs@.take(l.objs@.len() as int) =~= l.objs@);
    out
}

/// An archive that reads has at least one module: bytes with none are refused.
pub proof fn law_archive_not_empty(b: Seq<u8>, l: LIB)
    requires
        reads_as_lib(b, l),
    ensures
        l.objs@.len() >= 1,
{
}

/// An object file that reads ends with a `NOP`, and has no other.
pub proof fn law_obj_nop_terminated(b: Seq<u8>, o: OBJ)
    requires
        reads_as_obj(b, o),
    ensures
        o.sections@.len() >= 1,
        o.sections@.last() == Section::NOP,
        forall|i: int| 0 <= i < o.sections@.len() - 1 ==> o.sections@[i] != Section::NOP,
{
}

/// Round trip of object files: what `read_obj` accepts, `write_obj` gives back
/// byte for byte, and what `write_obj` writes, `read_obj` accepts.
pub proof fn law_obj_round_trip(b: Seq<u8>, o: OBJ)
    requires
        reads_as_obj(b, o),
    ensures
        wf_obj(o),
        enc_obj(o) == b,
        reads_as_obj(enc_obj(o), o),
{
}

/// Round trip of archives: what `read_lib` accepts, `write_lib` gives back byte
/// for byte, and what `write_lib` writes, `read_lib` accepts.
pub proof fn law_lib_round_trip(b: Seq<u8>, l: LIB)
    requires
        reads_as_lib(b, l),
    ensures
        wf_lib(l),
        enc_lib(l) == b,
        reads_as_lib(enc_lib(l), l),
{
}

} // verus!
