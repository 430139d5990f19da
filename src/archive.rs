//! Archives: the magic `LIB`, a version byte, and modules up to the end of the
//! input. A module is a metadata block (name, creation time, two sizes and the
//! exported names) followed by an object file.
use vstd::prelude::*;
use vstd::string::*;
use vstd::utf8::*;

use crate::bytes::{
    le32, lemma_le32_injective, occurs_at, pstr, lemma_occurs_bounds, lemma_occurs_concat, lemma_occurs_empty,
    lemma_occurs_exact, lemma_occurs_prefix, read_u32, read_pstr, read_bytes, write_u32,
    write_pstr, write_bytes,
};
use crate::names::{
    file_prefix_of, module_name_of, path_module_name_of, path_to_module_name, string_to_module_name,
};
use crate::object::{OBJ, enc_obj, obj_exports, wf_obj, decode_obj, encode_obj};
use crate::text::{lossy_string, push_str, string_of, utf8_lossy};
use crate::timestamp::{
    DateTime, decode_timestamp, encode_timestamp, packed, timestamp_text, timestamp_valid,
    unpacked, utc_seconds_of,
};

verus! {

/// A name a module exports. A name whose first byte is zero is listed with a
/// `*` in place of that byte; the meaning of such names is not known.
#[derive(Clone, Debug, PartialEq, Eq)]
pub struct Export {
    pub name: Vec<u8>,
}

/// The bytes of an export on disk: a one-byte length and the name.
pub open spec fn enc_export(e: Export) -> Seq<u8> {
    pstr(e.name@)
}

/// The bytes of a list of exports, one after the other.
pub open spec fn enc_exports(s: Seq<Export>) -> Seq<u8>
    decreases s.len(),
{
    if s.len() == 0 {
        Seq::empty()
    } else {
        enc_exports(s.drop_last()) + enc_export(s.last())
    }
}

/// An export list as it stands on disk: names that fit their length byte, the
/// last one empty and no other.
pub open spec fn exports_terminated(s: Seq<Export>) -> bool {
    s.len() >= 1 && s.last().name@.len() == 0 && (forall|i: int|
        0 <= i < s.len() - 1 ==> #[trigger] s[i].name@.len() != 0) && (forall|i: int|
        0 <= i < s.len() ==> #[trigger] s[i].name@.len() <= 255)
}

/// The metadata that precedes a module's object file.
#[derive(Clone, Debug, PartialEq, Eq)]
pub struct ModuleMetadata {
    /// The name, padded with spaces.
    pub name: [u8; 8],
    /// The creation time, packed as described in the `timestamp` module.
    pub created: u32,
    /// The length of the metadata block.
    pub offset: u32,
    /// The length of the metadata block and the object file together.
    pub size: u32,
    /// The exports, ending with an empty one.
    pub exports: Vec<Export>,
}

/// The bytes of a metadata block on disk.
pub open spec fn enc_metadata(m: ModuleMetadata) -> Seq<u8> {
    m.name@ + le32(m.created) + le32(m.offset) + le32(m.size) + enc_exports(m.exports@)
}

pub open spec fn wf_metadata(m: ModuleMetadata) -> bool {
    exports_terminated(m.exports@)
}

/// A module of an archive: metadata and an object file.
#[derive(Clone, Debug, PartialEq, Eq)]
pub struct Module {
    pub metadata: ModuleMetadata,
    pub obj: OBJ,
}

pub open spec fn enc_module(m: Module) -> Seq<u8> {
    enc_metadata(m.metadata) + enc_obj(m.obj)
}

pub open spec fn wf_module(m: Module) -> bool {
    wf_metadata(m.metadata) && wf_obj(m.obj)
}

/// The bytes of a list of modules, one after the other.
pub open spec fn enc_modules(s: Seq<Module>) -> Seq<u8>
    decreases s.len(),
{
    if s.len() == 0 {
        Seq::empty()
    } else {
        enc_modules(s.drop_last()) + enc_module(s.last())
    }
}

/// An archive.
#[derive(Clone, Debug, PartialEq, Eq)]
pub struct LIB {
    pub version: u8,
    pub objs: Vec<Module>,
}

/// The magic that starts an archive.
pub open spec fn lib_magic() -> Seq<u8> {
    seq![76u8, 73u8, 66u8]
}

pub open spec fn enc_lib(l: LIB) -> Seq<u8> {
    lib_magic() + seq![l.version] + enc_modules(l.objs@)
}

/// An archive that can be written and read back: at least one module, each of
/// which can.
pub open spec fn wf_lib(l: LIB) -> bool {
    l.objs@.len() >= 1 && forall|i: int| 0 <= i < l.objs@.len() ==> wf_module(#[trigger] l.objs@[i])
}

proof fn lemma_exports_take_prefix(s: Seq<Export>, j: int)
    requires
        0 <= j <= s.len(),
    ensures
        enc_exports(s.take(j)).len() <= enc_exports(s).len(),
        enc_exports(s.take(j)) == enc_exports(s).subrange(0, enc_exports(s.take(j)).len() as int),
    decreases s.len() - j,
{
    if j == s.len() {
        assert(s.take(j) =~= s);
    } else {
        lemma_exports_take_prefix(s, j + 1);
        assert(s.take(j + 1).drop_last() =~= s.take(j));
        let a = enc_exports(s.take(j));
        let c = enc_exports(s.take(j + 1));
        assert(c == a + enc_export(s[j]));
        assert(a =~= c.subrange(0, a.len() as int));
        assert(a =~= enc_exports(s).subrange(0, a.len() as int));
    }
}

/// Where the entries of `s` stand from `pos` on, entry `k` stands after the
/// first `k` of them.
proof fn lemma_exports_at(s: Seq<Export>, k: int, b: Seq<u8>, pos: int)
    requires
        0 <= k < s.len(),
        occurs_at(enc_exports(s), b, pos),
    ensures
        occurs_at(enc_exports(s.take(k)), b, pos),
        occurs_at(enc_export(s[k]), b, pos + enc_exports(s.take(k)).len()),
{
    lemma_exports_take_prefix(s, k + 1);
    let c = enc_exports(s.take(k + 1));
    lemma_occurs_prefix(enc_exports(s), c.len() as int, b, pos);
    assert(s.take(k + 1).drop_last() =~= s.take(k));
    assert(s.take(k + 1).last() == s[k]);
    lemma_occurs_concat(enc_exports(s.take(k)), enc_export(s[k]), b, pos);
}

pub proof fn lemma_modules_take_prefix(s: Seq<Module>, j: int)
    requires
        0 <= j <= s.len(),
    ensures
        enc_modules(s.take(j)).len() <= enc_modules(s).len(),
        enc_modules(s.take(j)) == enc_modules(s).subrange(0, enc_modules(s.take(j)).len() as int),
    decreases s.len() - j,
{
    if j == s.len() {
        assert(s.take(j) =~= s);
    } else {
        lemma_modules_take_prefix(s, j + 1);
        assert(s.take(j + 1).drop_last() =~= s.take(j));
        let a = enc_modules(s.take(j));
        let c = enc_modules(s.take(j + 1));
        assert(c == a + enc_module(s[j]));
        assert(a =~= c.subrange(0, a.len() as int));
        assert(a =~= enc_modules(s).subrange(0, a.len() as int));
    }
}

/// Where the entries of `s` stand from `pos` on, entry `k` stands after the
/// first `k` of them.
pub proof fn lemma_modules_at(s: Seq<Module>, k: int, b: Seq<u8>, pos: int)
    requires
        0 <= k < s.len(),
        occurs_at(enc_modules(s), b, pos),
    ensures
        occurs_at(enc_modules(s.take(k)), b, pos),
        occurs_at(enc_module(s[k]), b, pos + enc_modules(s.take(k)).len()),
{
    lemma_modules_take_prefix(s, k + 1);
    let c = enc_modules(s.take(k + 1));
    lemma_occurs_prefix(enc_modules(s), c.len() as int, b, pos);
    assert(s.take(k + 1).drop_last() =~= s.take(k));
    assert(s.take(k + 1).last() == s[k]);
    lemma_occurs_concat(enc_modules(s.take(k)), enc_module(s[k]), b, pos);
}


/// Reads the export that starts at `pos`.
pub fn decode_export(b: &[u8], pos: usize) -> (r: Option<(Export, usize)>)
    ensures
        r matches Some((e, n)) ==> e.name@.len() <= 255 && n == pos + enc_export(e).len()
            && occurs_at(enc_export(e), b@, pos as int),
        forall|x: Export|
            x.name@.len() <= 255 && #[trigger] occurs_at(enc_export(x), b@, pos as int) ==> (r matches Some((e, n))
                && e.name@ == x.name@),
{
    match read_pstr(b, pos) {
        Some((name, n)) => Some((Export { name }, n)),
        None => None,
    }
}

/// Reads the exports that start at `pos`, up to and including the first empty
/// one; `None` exactly where no such list stands there.
#[verifier::rlimit(100)]
pub fn decode_exports(b: &[u8], pos: usize) -> (r: Option<(Vec<Export>, usize)>)
    ensures
        r matches Some((s, n)) ==> exports_terminated(s@) && n == pos + enc_exports(s@).len()
            && occurs_at(enc_exports(s@), b@, pos as int),
        forall|x: Seq<Export>|
            exports_terminated(x) && #[trigger] occurs_at(enc_exports(x), b@, pos as int) ==> (r matches Some((s, n))
                && enc_exports(s@) == enc_exports(x)),
{
    let total = b.len();
    if pos > total {
        proof {
            assert forall|x: Seq<Export>|
                exports_terminated(x) && #[trigger] occurs_at(enc_exports(x), b@, pos as int) implies false by {
                lemma_occurs_bounds(enc_exports(x), b@, pos as int);
            }
        }
        return None;
    }
    let mut acc: Vec<Export> = Vec::new();
    let mut p: usize = pos;
    proof {
        assert(enc_exports(acc@) =~= Seq::<u8>::empty());
        lemma_occurs_empty(b@, pos as int);
    }
    loop
        invariant
            total == b@.len(),
            p == pos + enc_exports(acc@).len(),
            occurs_at(enc_exports(acc@), b@, pos as int),
            forall|i: int| 0 <= i < acc@.len() ==> #[trigger] acc@[i].name@.len() != 0,
            forall|i: int| 0 <= i < acc@.len() ==> #[trigger] acc@[i].name@.len() <= 255,
            forall|x: Seq<Export>|
                exports_terminated(x) && #[trigger] occurs_at(enc_exports(x), b@, pos as int)
                    ==> acc@.len() < x.len() && enc_exports(x.take(acc@.len() as int))
                    == enc_exports(acc@),
        decreases total - p,
    {
        let ghost k = acc@.len() as int;
        proof {
            assert forall|x: Seq<Export>|
                exports_terminated(x) && #[trigger] occurs_at(enc_exports(x), b@, pos as int) implies occurs_at(
                enc_export(x[k]),
                b@,
                p as int,
            ) && x[k].name@.len() <= 255 by {
                lemma_exports_at(x, k, b@, pos as int);
            }
        }
        match decode_export(b, p) {
            None => {
                return None;
            },
            Some((y, n)) => {
                let last = y.name.len() == 0;
                let ghost prev = acc@;
                acc.push(y);
                proof {
                    assert(acc@.drop_last() =~= prev);
                    lemma_occurs_concat(enc_exports(prev), enc_export(y), b@, pos as int);
                    lemma_occurs_bounds(enc_export(y), b@, p as int);
                    assert forall|x: Seq<Export>|
                        exports_terminated(x) && #[trigger] occurs_at(enc_exports(x), b@, pos as int) implies enc_exports(
                        x.take(k + 1),
                    ) == enc_exports(acc@) && (last <==> k + 1 == x.len()) by {
                        lemma_exports_at(x, k, b@, pos as int);
                        assert(x.take(k + 1).drop_last() =~= x.take(k));
                        assert(y.name@ == x[k].name@);
                    }
                }
                p = n;
                if last {
                    proof {
                        assert forall|x: Seq<Export>|
                            exports_terminated(x) && #[trigger] occurs_at(enc_exports(x), b@, pos as int) implies enc_exports(
                            acc@,
                        ) == enc_exports(x) by {
                            assert(x.take(k + 1) =~= x);
                        }
                    }
                    return Some((acc, p));
                }
            },
        }
    }
}

/// Appends the bytes of an export list.
pub fn encode_exports(s: &Vec<Export>, out: &mut Vec<u8>)
    requires
        forall|i: int| 0 <= i < s@.len() ==> #[trigger] s@[i].name@.len() <= 255,
    ensures
        final(out)@ == old(out)@ + enc_exports(s@),
{
    let mut i: usize = 0;
    while i < s.len()
        invariant
            i <= s@.len(),
            forall|j: int| 0 <= j < s@.len() ==> #[trigger] s@[j].name@.len() <= 255,
            out@ == old(out)@ + enc_exports(s@.take(i as int)),
        decreases s@.len() - i,
    {
        write_pstr(out, s[i].name.as_slice());
        proof {
            assert(s@.take(i + 1).drop_last() =~= s@.take(i as int));
        }
        i = i + 1;
        assert(out@ =~= old(out)@ + enc_exports(s@.take(i as int)));
    }
    assert(s@.take(s@.len() as int) =~= s@);
}

proof fn lemma_metadata_parts(m: ModuleMetadata, b: Seq<u8>, pos: int)
    ensures
        occurs_at(enc_metadata(m), b, pos) <==> (occurs_at(m.name@, b, pos) && occurs_at(
            le32(m.created),
            b,
            pos + 8,
        ) && occurs_at(le32(m.offset), b, pos + 12) && occurs_at(le32(m.size), b, pos + 16)
            && occurs_at(enc_exports(m.exports@), b, pos + 20)),
{
    let a = m.name@;
    let c = le32(m.created);
    let d = le32(m.offset);
    let e = le32(m.size);
    lemma_occurs_concat(a + c + d + e, enc_exports(m.exports@), b, pos);
    lemma_occurs_concat(a + c + d, e, b, pos);
    lemma_occurs_concat(a + c, d, b, pos);
    lemma_occurs_concat(a, c, b, pos);
}

/// Reads the metadata block that starts at `pos`.
pub fn decode_metadata(b: &[u8], pos: usize) -> (r: Option<(ModuleMetadata, usize)>)
    ensures
        r matches Some((m, n)) ==> wf_metadata(m) && n == pos + enc_metadata(m).len() && occurs_at(
            enc_metadata(m),
            b@,
            pos as int,
        ),
        forall|x: ModuleMetadata|
            wf_metadata(x) && #[trigger] occurs_at(enc_metadata(x), b@, pos as int) ==> (r matches Some((m, n))
                && enc_metadata(m) == enc_metadata(x)),
{
    let total = b.len();
    let raw = match read_bytes(b, pos, 8) {
        Some(v) => v,
        None => {
            proof {
                assert forall|x: ModuleMetadata|
                    wf_metadata(x) && #[trigger] occurs_at(enc_metadata(x), b@, pos as int) implies false by {
                    lemma_metadata_parts(x, b@, pos as int);
                    lemma_occurs_bounds(x.name@, b@, pos as int);
                }
            }
            return None;
        },
    };
    let name: [u8; 8] = [raw[0], raw[1], raw[2], raw[3], raw[4], raw[5], raw[6], raw[7]];
    assert(name@ =~= raw@);
    let fail = Option::<(ModuleMetadata, usize)>::None;
    proof {
        assert forall|x: ModuleMetadata|
            wf_metadata(x) && #[trigger] occurs_at(enc_metadata(x), b@, pos as int) implies x.name@ == name@ by {
            lemma_metadata_parts(x, b@, pos as int);
            lemma_occurs_exact(x.name@, b@, pos as int);
            lemma_occurs_exact(raw@, b@, pos as int);
        }
    }
    let created = match read_u32(b, pos + 8) {
        Some(v) => v,
        None => {
            proof {
                assert forall|x: ModuleMetadata|
                    wf_metadata(x) && #[trigger] occurs_at(enc_metadata(x), b@, pos as int) implies false by {
                    lemma_metadata_parts(x, b@, pos as int);
                }
            }
            return fail;
        },
    };
    let offset = match read_u32(b, pos + 12) {
        Some(v) => v,
        None => {
            proof {
                assert forall|x: ModuleMetadata|
                    wf_metadata(x) && #[trigger] occurs_at(enc_metadata(x), b@, pos as int) implies false by {
                    lemma_metadata_parts(x, b@, pos as int);
                }
            }
            return fail;
        },
    };
    let size = match read_u32(b, pos + 16) {
        Some(v) => v,
        None => {
            proof {
                assert forall|x: ModuleMetadata|
                    wf_metadata(x) && #[trigger] occurs_at(enc_metadata(x), b@, pos as int) implies false by {
                    lemma_metadata_parts(x, b@, pos as int);
                }
            }
            return fail;
        },
    };
    match decode_exports(b, pos + 20) {
        None => {
            proof {
                assert forall|x: ModuleMetadata|
                    wf_metadata(x) && #[trigger] occurs_at(enc_metadata(x), b@, pos as int) implies false by {
                    lemma_metadata_parts(x, b@, pos as int);
                }
            }
            fail
        },
        Some((exports, n)) => {
            let m = ModuleMetadata { name, created, offset, size, exports };
            proof {
                lemma_metadata_parts(m, b@, pos as int);
                assert forall|x: ModuleMetadata|
                    wf_metadata(x) && #[trigger] occurs_at(enc_metadata(x), b@, pos as int) implies enc_metadata(x)
                    == enc_metadata(m) by {
                    lemma_metadata_parts(x, b@, pos as int);
                }
            }
            Some((m, n))
        },
    }
}

/// Appends the bytes of a metadata block.
pub fn encode_metadata(m: &ModuleMetadata, out: &mut Vec<u8>)
    requires
        wf_metadata(*m),
    ensures
        final(out)@ == old(out)@ + enc_metadata(*m),
{
    write_bytes(out, m.name.as_slice());
    write_u32(out, m.created);
    write_u32(out, m.offset);
    write_u32(out, m.size);
    encode_exports(&m.exports, out);
    assert(out@ =~= old(out)@ + enc_metadata(*m));
}

/// Reads the module that starts at `pos`.
pub fn decode_module(b: &[u8], pos: usize) -> (r: Option<(Module, usize)>)
    ensures
        r matches Some((m, n)) ==> wf_module(m) && n == pos + enc_module(m).len() && occurs_at(
            enc_module(m),
            b@,
            pos as int,
        ),
        forall|x: Module|
            wf_module(x) && #[trigger] occurs_at(enc_module(x), b@, pos as int) ==> (r matches Some((m, n))
                && enc_module(m) == enc_module(x)),
{
    proof {
        assert forall|x: Module| wf_module(x) && #[trigger] occurs_at(enc_module(x), b@, pos as int) implies occurs_at(
            enc_metadata(x.metadata),
            b@,
            pos as int,
        ) && occurs_at(enc_obj(x.obj), b@, pos + enc_metadata(x.metadata).len()) by {
            lemma_occurs_concat(enc_metadata(x.metadata), enc_obj(x.obj), b@, pos as int);
        }
    }
    let (metadata, n1) = match decode_metadata(b, pos) {
        Some(v) => v,
        None => {
            return None;
        },
    };
    let (obj, n2) = match decode_obj(b, n1) {
        Some(v) => v,
        None => {
            return None;
        },
    };
    let m = Module { metadata, obj };
    proof {
        lemma_occurs_concat(enc_metadata(m.metadata), enc_obj(m.obj), b@, pos as int);
    }
    Some((m, n2))
}

/// Appends the bytes of a module.
pub fn encode_module(m: &Module, out: &mut Vec<u8>)
    requires
        wf_module(*m),
    ensures
        final(out)@ == old(out)@ + enc_module(*m),
{
    encode_metadata(&m.metadata, out);
    encode_obj(&m.obj, out);
    assert(out@ =~= old(out)@ + enc_module(*m));
}

} // verus!

verus! {

/// How an export is listed: a name whose first byte is zero gets a `*` in
/// place of that byte.
pub open spec fn export_text(name: Seq<u8>) -> Seq<char> {
    if name.len() > 0 && name[0] == 0 {
        seq!['*'] + utf8_lossy(name.drop_first())
    } else {
        utf8_lossy(name)
    }
}

/// The listed names of the non-empty exports, in order.
pub open spec fn export_names(s: Seq<Export>) -> Seq<Seq<char>>
    decreases s.len(),
{
    if s.len() == 0 {
        Seq::empty()
    } else if s.last().name@.len() == 0 {
        export_names(s.drop_last())
    } else {
        export_names(s.drop_last()).push(export_text(s.last().name@))
    }
}

/// The space an export list takes on disk: a length byte and the name for each.
pub open spec fn exports_size(s: Seq<Export>) -> int
    decreases s.len(),
{
    if s.len() == 0 {
        0
    } else {
        exports_size(s.drop_last()) + 1 + s.last().name@.len()
    }
}

/// ASCII white space as `u8::is_ascii_whitespace` counts it.
pub open spec fn is_blank(c: u8) -> bool {
    c == 0x20 || c == 0x09 || c == 0x0A || c == 0x0C || c == 0x0D
}

/// The bytes without the white space at their end.
pub open spec fn trim_end(b: Seq<u8>) -> Seq<u8>
    decreases b.len(),
{
    if b.len() > 0 && is_blank(b.last()) {
        trim_end(b.drop_last())
    } else {
        b
    }
}

fn export_list(s: &Vec<Export>) -> (r: Vec<String>)
    ensures
        r@.map_values(|x: String| x@) == export_names(s@),
        forall|i: int| 0 <= i < r@.len() ==> #[trigger] r@[i]@.len() > 0,
{
    let mut r: Vec<String> = Vec::new();
    let mut i: usize = 0;
    while i < s.len()
        invariant
            i <= s@.len(),
            r@.map_values(|x: String| x@) == export_names(s@.take(i as int)),
            forall|k: int| 0 <= k < r@.len() ==> #[trigger] r@[k]@.len() > 0,
        decreases s@.len() - i,
    {
        let ghost before = r@;
        if s[i].name.len() > 0 {
            r.push(s[i].name());
            assert(r@.map_values(|x: String| x@) =~= before.map_values(|x: String| x@).push(
                export_text(s@[i as int].name@),
            ));
        }
        proof {
            assert(s@.take(i + 1).drop_last() =~= s@.take(i as int));
        }
        i = i + 1;
    }
    assert(s@.take(s@.len() as int) =~= s@);
    r
}

impl Export {
    /// An export of `name`, cut to its first 255 bytes.
    pub fn new(name: String) -> (r: Export)
        ensures
            r.name@ == encode_utf8(name@).take(
                if encode_utf8(name@).len() < 255 {
                    encode_utf8(name@).len() as int
                } else {
                    255
                },
            ),
    {
        let bytes = name.as_str().as_bytes();
        let n: usize = if bytes.len() < 255 {
            bytes.len()
        } else {
            255
        };
        let v = read_bytes(bytes, 0, n).unwrap();
        proof {
            lemma_occurs_exact(v@, bytes@, 0);
        }
        Export { name: v }
    }

    /// The empty export that ends an export list.
    pub fn empty() -> (r: Export)
        ensures
            r.name@.len() == 0,
    {
        Export { name: Vec::new() }
    }

    /// The name as listed: a first byte of zero shows as `*`; bytes that are
    /// not UTF-8 become U+FFFD.
    pub fn name(&self) -> (r: String)
        ensures
            r@ == export_text(self.name@),
            self.name@.len() > 0 ==> r@.len() > 0,
            valid_utf8(self.name@) && (self.name@.len() == 0 || self.name@[0] != 0) ==> r@
                == decode_utf8(self.name@),
    {
        if self.name.len() > 0 && self.name[0] == 0 {
            let rest = read_bytes(self.name.as_slice(), 1, self.name.len() - 1).unwrap();
            proof {
                lemma_occurs_exact(rest@, self.name@, 1);
                assert(rest@ =~= self.name@.drop_first());
            }
            let mut out: Vec<char> = Vec::new();
            out.push('*');
            let text = lossy_string(rest.as_slice());
            push_str(&mut out, text.as_str());
            string_of(out)
        } else {
            lossy_string(self.name.as_slice())
        }
    }

    /// The length of the name.
    pub fn name_size(&self) -> (r: u8)
        requires
            self.name@.len() <= 255,
        ensures
            r == self.name@.len(),
    {
        self.name.len() as u8
    }
}

/// The bytes an export of `name` keeps: its UTF-8, cut to 255 bytes.
pub open spec fn export_bytes(name: Seq<char>) -> Seq<u8> {
    encode_utf8(name).take(
        if encode_utf8(name).len() < 255 {
            encode_utf8(name).len() as int
        } else {
            255
        },
    )
}

/// The space exports of these names take on disk.
pub open spec fn names_size(s: Seq<Seq<char>>) -> int
    decreases s.len(),
{
    if s.len() == 0 {
        0
    } else {
        names_size(s.drop_last()) + 1 + export_bytes(s.last()).len()
    }
}

proof fn lemma_names_size_prefix(s: Seq<Seq<char>>, j: int)
    requires
        0 <= j <= s.len(),
    ensures
        names_size(s.take(j)) <= names_size(s),
    decreases s.len() - j,
{
    if j < s.len() {
        lemma_names_size_prefix(s, j + 1);
        assert(s.take(j + 1).drop_last() =~= s.take(j));
    } else {
        assert(s.take(j) =~= s);
    }
}

proof fn lemma_utf8_nonempty(s: Seq<char>)
    requires
        s.len() > 0,
    ensures
        encode_utf8(s).len() > 0,
{
}

impl ModuleMetadata {
    /// Metadata for a module whose object file takes `size` bytes: the name
    /// cut to whole clusters that fit in eight bytes, the creation time packed,
    /// the exports followed by the empty one, and the two sizes worked out.
    pub fn new(name: String, created: DateTime, size: u32, exports: Vec<Export>) -> (r: ModuleMetadata)
        requires
            forall|i: int| 0 <= i < exports@.len() ==> #[trigger] exports@[i].name@.len() <= 255,
            forall|i: int| 0 <= i < exports@.len() ==> #[trigger] exports@[i].name@.len() > 0,
            21 + exports_size(exports@) + size <= u32::MAX,
        ensures
            wf_metadata(r),
            r.name@ == module_name_of(name@),
            r.created == packed(created),
            r.exports@.drop_last() == exports@,
            r.offset == 20 + exports_size(r.exports@),
            r.size == r.offset + size,
    {
        Self::with_name(string_to_module_name(name.as_str()), created, size, exports)
    }

    /// Metadata for the object file `obj` found at `path`, which takes `size`
    /// bytes and was made at `created`: the module name of the path, and an
    /// export for each name the object exports, cut to 255 bytes. `None` where
    /// the path has no file name, or the sizes would not fit in 32 bits.
    pub fn for_object(path: &str, created: DateTime, size: u32, obj: &OBJ) -> (r: Option<
        ModuleMetadata,
    >)
        ensures
            r is Some <==> (file_prefix_of(path@) is Some && 21 + names_size(obj_exports(obj.sections@))
                + size <= u32::MAX),
            r matches Some(m) ==> wf_metadata(m) && m.name@ == path_module_name_of(
                file_prefix_of(path@)->Some_0,
            ) && m.created == packed(created) && m.offset == 20 + exports_size(m.exports@) && m.size
                == m.offset + size && m.exports@.len() == obj_exports(obj.sections@).len() + 1
                && forall|i: int|
                0 <= i < m.exports@.len() - 1 ==> #[trigger] m.exports@[i].name@ == export_bytes(
                    obj_exports(obj.sections@)[i],
                ),
    {
        let name = match path_to_module_name(path) {
            Some(n) => n,
            None => {
                return None;
            },
        };
        let names = obj.exports();
        let ghost ns = names@.map_values(|x: String| x@);
        assert(ns == obj_exports(obj.sections@));
        let mut exports: Vec<Export> = Vec::new();
        let mut total: u64 = 0;
        let mut i: usize = 0;
        while i < names.len()
            invariant
                i <= names@.len(),
                ns == names@.map_values(|x: String| x@),
                ns == obj_exports(obj.sections@),
                forall|k: int| 0 <= k < names@.len() ==> #[trigger] names@[k]@.len() > 0,
                exports@.len() == i,
                forall|k: int| 0 <= k < i ==> #[trigger] exports@[k].name@ == export_bytes(ns[k]),
                forall|k: int| 0 <= k < i ==> #[trigger] exports@[k].name@.len() <= 255,
                forall|k: int| 0 <= k < i ==> #[trigger] exports@[k].name@.len() > 0,
                total == names_size(ns.take(i as int)),
                total == exports_size(exports@),
                total <= u32::MAX,
            decreases names@.len() - i,
        {
            let e = Export::new(names[i].clone());
            proof {
                assert(ns[i as int] == names@[i as int]@);
                lemma_utf8_nonempty(ns[i as int]);
                assert(ns.take(i + 1).drop_last() =~= ns.take(i as int));
                assert(ns.take(i + 1).last() == ns[i as int]);
                assert(e.name@ == export_bytes(ns[i as int]));
            }
            let ghost before = exports@;
            let len = e.name.len() as u64;
            exports.push(e);
            proof {
                assert(exports@.drop_last() =~= before);
                assert(total + 1 + len == names_size(ns.take(i + 1)));
            }
            total = total + 1 + len;
            i = i + 1;
            if total > u32::MAX as u64 {
                proof {
                    lemma_names_size_prefix(ns, i as int);
                    assert(names_size(ns) > u32::MAX);
                    assert(ns == obj_exports(obj.sections@));
                }
                return None;
            }
        }
        proof {
            assert(ns.take(i as int) =~= ns);
        }
        if 21 + total + size as u64 > u32::MAX as u64 {
            return None;
        }
        let ghost given = exports@;
        let m = Self::with_name(name, created, size, exports);
        proof {
            assert forall|k: int| 0 <= k < m.exports@.len() - 1 implies #[trigger] m.exports@[k].name@
                == export_bytes(obj_exports(obj.sections@)[k]) by {
                assert(m.exports@.drop_last()[k] == given[k]);
            }
        }
        Some(m)
    }

    /// Metadata as `new` makes it, with the eight-byte name given as it is.
    pub fn with_name(name: [u8; 8], created: DateTime, size: u32, exports: Vec<Export>) -> (r:
        ModuleMetadata)
        requires
            forall|i: int| 0 <= i < exports@.len() ==> #[trigger] exports@[i].name@.len() <= 255,
            forall|i: int| 0 <= i < exports@.len() ==> #[trigger] exports@[i].name@.len() > 0,
            21 + exports_size(exports@) + size <= u32::MAX,
        ensures
            wf_metadata(r),
            r.name@ == name@,
            r.created == packed(created),
            r.exports@.drop_last() == exports@,
            r.offset == 20 + exports_size(r.exports@),
            r.size == r.offset + size,
    {
        let created = encode_timestamp(&created);
        let ghost given = exports@;
        let mut exports = exports;
        exports.push(Export::empty());
        proof {
            assert(exports@.drop_last() =~= given);
        }
        let mut offset: u32 = 20;
        let mut i: usize = 0;
        while i < exports.len()
            invariant
                i <= exports@.len(),
                exports@.drop_last() == given,
                exports@.last().name@.len() == 0,
                exports@.len() == given.len() + 1,
                21 + exports_size(given) + size <= u32::MAX,
                offset == 20 + exports_size(exports@.take(i as int)),
            decreases exports@.len() - i,
        {
            proof {
                assert(exports@.take(i + 1).drop_last() =~= exports@.take(i as int));
                lemma_exports_size_prefix(exports@, i + 1);
                assert(exports@.take(exports@.len() - 1) =~= given);
                if i + 1 < exports@.len() {
                    lemma_exports_size_prefix(exports@.take(exports@.len() - 1), i + 1);
                    assert(exports@.take(exports@.len() - 1).take(i + 1) =~= exports@.take(i + 1));
                }
            }
            offset = offset + 1 + exports[i].name.len() as u32;
            i = i + 1;
        }
        proof {
            assert(exports@.take(exports@.len() as int) =~= exports@);
            assert(exports@.drop_last() =~= given);
        }
        ModuleMetadata { name, created, offset, size: offset + size, exports }
    }

    /// The name without the spaces that pad it; bytes that are not UTF-8
    /// become U+FFFD.
    pub fn name(&self) -> (r: String)
        ensures
            r@ == utf8_lossy(trim_end(self.name@)),
    {
        let mut end: usize = 8;
        assert(self.name@.take(8) =~= self.name@);
        while end > 0 && is_ascii_blank(self.name[end - 1])
            invariant
                end <= 8,
                self.name@.len() == 8,
                trim_end(self.name@.take(end as int)) == trim_end(self.name@),
            decreases end,
        {
            proof {
                assert(self.name@.take(end as int).drop_last() =~= self.name@.take(end - 1));
            }
            end = end - 1;
        }
        let kept = read_bytes(self.name.as_slice(), 0, end).unwrap();
        proof {
            lemma_occurs_exact(kept@, self.name@, 0);
            assert(kept@ =~= self.name@.take(end as int));
            assert(self.name@.take(8) =~= self.name@);
        }
        lossy_string(kept.as_slice())
    }

    /// The names of the exports, without the empty one that ends the list.
    pub fn exports(&self) -> (r: Vec<String>)
        ensures
            r@.map_values(|x: String| x@) == export_names(self.exports@),
            forall|i: int| 0 <= i < r@.len() ==> #[trigger] r@[i]@.len() > 0,
    {
        export_list(&self.exports)
    }

    /// The creation time as `DD-MM-YY HH:MM:SS`.
    pub fn created(&self) -> (r: String)
        requires
            timestamp_valid(self.created),
        ensures
            r@ == timestamp_text(unpacked(self.created)),
    {
        let dt = decode_timestamp(self.created).unwrap();
        dt.to_text()
    }

    /// The creation time, where the packed value names one.
    pub fn created_datetime(&self) -> (r: Option<DateTime>)
        ensures
            r is Some <==> timestamp_valid(self.created),
            r matches Some(dt) ==> dt == unpacked(self.created),
    {
        decode_timestamp(self.created)
    }

    /// The creation time in seconds since the Unix epoch. No time zone is
    /// stored; the time is taken as UTC.
    pub fn created_at(&self) -> (r: Option<i64>)
        ensures
            r is Some <==> timestamp_valid(self.created),
            r matches Some(s) ==> s == utc_seconds_of(
                unpacked(self.created).year as int,
                unpacked(self.created).month as int,
                unpacked(self.created).day as int,
                unpacked(self.created).hour as int,
                unpacked(self.created).minute as int,
                unpacked(self.created).second as int,
            ),
    {
        match decode_timestamp(self.created) {
            Some(dt) => {
                proof {
                    let t = self.created;
                    assert((t >> 9u32) & 0x7Fu32 <= 127) by (bit_vector);
                }
                Some(dt.utc_seconds())
            },
            None => None,
        }
    }
}

fn is_ascii_blank(c: u8) -> (r: bool)
    ensures
        r == is_blank(c),
{
    c == 0x20 || c == 0x09 || c == 0x0A || c == 0x0C || c == 0x0D
}

proof fn lemma_exports_size_prefix(s: Seq<Export>, j: int)
    requires
        0 <= j <= s.len(),
    ensures
        exports_size(s.take(j)) <= exports_size(s),
    decreases s.len() - j,
{
    if j < s.len() {
        lemma_exports_size_prefix(s, j + 1);
        assert(s.take(j + 1).drop_last() =~= s.take(j));
    } else {
        assert(s.take(j) =~= s);
    }
}

impl Module {
    /// A module of an object file and its metadata.
    pub fn new(obj: OBJ, metadata: ModuleMetadata) -> (r: Module)
        ensures
            r.obj == obj,
            r.metadata == metadata,
    {
        Module { metadata, obj }
    }

    /// The module name, without padding.
    pub fn name(&self) -> (r: String)
        ensures
            r@ == utf8_lossy(trim_end(self.metadata.name@)),
    {
        self.metadata.name()
    }

    /// The exported names.
    pub fn exports(&self) -> (r: Vec<String>)
        ensures
            r@.map_values(|x: String| x@) == export_names(self.metadata.exports@),
            forall|i: int| 0 <= i < r@.len() ==> #[trigger] r@[i]@.len() > 0,
    {
        self.metadata.exports()
    }

    /// The creation time as `DD-MM-YY HH:MM:SS`.
    pub fn created(&self) -> (r: String)
        requires
            timestamp_valid(self.metadata.created),
        ensures
            r@ == timestamp_text(unpacked(self.metadata.created)),
    {
        self.metadata.created()
    }

    /// The creation time, where the packed value names one.
    pub fn created_datetime(&self) -> (r: Option<DateTime>)
        ensures
            r is Some <==> timestamp_valid(self.metadata.created),
            r matches Some(dt) ==> dt == unpacked(self.metadata.created),
    {
        self.metadata.created_datetime()
    }

    /// The creation time in seconds since the Unix epoch, taken as UTC.
    pub fn created_at(&self) -> (r: Option<i64>)
        ensures
            r is Some <==> timestamp_valid(self.metadata.created),
            r matches Some(s) ==> s == utc_seconds_of(
                unpacked(self.metadata.created).year as int,
                unpacked(self.metadata.created).month as int,
                unpacked(self.metadata.created).day as int,
                unpacked(self.metadata.created).hour as int,
                unpacked(self.metadata.created).minute as int,
                unpacked(self.metadata.created).second as int,
            ),
    {
        self.metadata.created_at()
    }

    /// The object file.
    pub fn object(&self) -> (r: &OBJ)
        ensures
            *r == self.obj,
    {
        &self.obj
    }
}

impl LIB {
    /// An archive of version 1 with the given modules, of which there must be
    /// at least one.
    pub fn new(objs: Vec<Module>) -> (r: LIB)
        requires
            objs@.len() >= 1,
        ensures
            r.version == 1,
            r.objs@ == objs@,
            r.objs@.len() >= 1,
    {
        LIB { version: 1, objs }
    }

    /// The modules.
    pub fn modules(&self) -> (r: &Vec<Module>)
        ensures
            r@ == self.objs@,
    {
        &self.objs
    }
}

/// A module whose object file is kept as bytes, unread.
#[derive(Clone, Debug, PartialEq, Eq)]
pub struct OpaqueModule {
    pub metadata: ModuleMetadata,
    pub obj: Vec<u8>,
}

/// Metadata blocks with the same bytes state the same size.
proof fn lemma_metadata_size(a: ModuleMetadata, c: ModuleMetadata)
    requires
        enc_metadata(a) == enc_metadata(c),
    ensures
        a.size == c.size,
{
    let ea = enc_metadata(a);
    assert(ea.subrange(16, 20) =~= le32(a.size));
    assert(enc_metadata(c).subrange(16, 20) =~= le32(c.size));
    lemma_le32_injective(a.size, c.size);
}

/// Reads the metadata at `pos` and the `size - 16` bytes after it as the
/// object file; `None` where either cannot be read.
pub fn decode_opaque_module(b: &[u8], pos: usize) -> (r: Option<(OpaqueModule, usize)>)
    ensures
        r matches Some((m, n)) ==> wf_metadata(m.metadata) && m.metadata.size >= 16 && m.obj@.len()
            == m.metadata.size - 16 && occurs_at(enc_metadata(m.metadata) + m.obj@, b@, pos as int)
            && n == pos + enc_metadata(m.metadata).len() + m.obj@.len(),
        forall|x: ModuleMetadata|
            wf_metadata(x) && #[trigger] occurs_at(enc_metadata(x), b@, pos as int) && x.size >= 16
                && pos + enc_metadata(x).len() + x.size - 16 <= b@.len() ==> r is Some,
{
    let total = b.len();
    let (metadata, n1) = match decode_metadata(b, pos) {
        Some(v) => v,
        None => {
            return None;
        },
    };
    proof {
        assert forall|x: ModuleMetadata|
            wf_metadata(x) && #[trigger] occurs_at(enc_metadata(x), b@, pos as int) implies x.size
            == metadata.size && enc_metadata(x).len() == enc_metadata(metadata).len() by {
            lemma_metadata_size(x, metadata);
        }
    }
    if metadata.size < 16 {
        return None;
    }
    let len = (metadata.size - 16) as usize;
    match read_bytes(b, n1, len) {
        Some(obj) => {
            proof {
                lemma_occurs_concat(enc_metadata(metadata), obj@, b@, pos as int);
            }
            let n = n1 + len;
            Some((OpaqueModule { metadata, obj }, n))
        },
        None => None,
    }
}

impl OpaqueModule {
    /// The module name, without padding.
    pub fn name(&self) -> (r: String)
        ensures
            r@ == utf8_lossy(trim_end(self.metadata.name@)),
    {
        self.metadata.name()
    }

    /// The exported names.
    pub fn exports(&self) -> (r: Vec<String>)
        ensures
            r@.map_values(|x: String| x@) == export_names(self.metadata.exports@),
            forall|i: int| 0 <= i < r@.len() ==> #[trigger] r@[i]@.len() > 0,
    {
        self.metadata.exports()
    }

    /// The creation time as `DD-MM-YY HH:MM:SS`.
    pub fn created(&self) -> (r: String)
        requires
            timestamp_valid(self.metadata.created),
        ensures
            r@ == timestamp_text(unpacked(self.metadata.created)),
    {
        self.metadata.created()
    }

    /// The creation time, where the packed value names one.
    pub fn created_datetime(&self) -> (r: Option<DateTime>)
        ensures
            r is Some <==> timestamp_valid(self.metadata.created),
            r matches Some(dt) ==> dt == unpacked(self.metadata.created),
    {
        self.metadata.created_datetime()
    }

    /// The creation time in seconds since the Unix epoch, taken as UTC.
    pub fn created_at(&self) -> (r: Option<i64>)
        ensures
            r is Some <==> timestamp_valid(self.metadata.created),
            r matches Some(s) ==> s == utc_seconds_of(
                unpacked(self.metadata.created).year as int,
                unpacked(self.metadata.created).month as int,
                unpacked(self.metadata.created).day as int,
                unpacked(self.metadata.created).hour as int,
                unpacked(self.metadata.created).minute as int,
                unpacked(self.metadata.created).second as int,
            ),
    {
        self.metadata.created_at()
    }

    /// The unread bytes of the object file.
    pub fn obj_blob(&self) -> (r: &[u8])
        ensures
            r@ == self.obj@,
    {
        self.obj.as_slice()
    }
}

} // verus!
