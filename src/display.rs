//! Listings of archives and object files, with options for indentation, code
//! and spelling.
use vstd::prelude::*;

use crate::archive::{LIB, Module, export_names, trim_end};
use crate::listing::{section_text, push_section_text};
use crate::object::OBJ;
use crate::section::Section;
use crate::text::{
    dec, hex, pad_left, push_dec, push_hex_padded, push_str, string_of, utf8_lossy,
};
use crate::timestamp::{timestamp_text, timestamp_valid, unpacked};

verus! {

/// How the code of a listing is shown.
#[derive(Clone, Copy, Debug, PartialEq, Eq)]
pub enum CodeFormat {
    /// Not at all.
    NoCode,
    /// As bytes in hexadecimal, sixteen to a row.
    Hex,
    /// As MIPS instructions.
    Disassembly,
}

/// Options for a listing.
#[derive(Clone, Copy, Debug, PartialEq, Eq)]
pub struct Options {
    /// How code is shown.
    pub code_format: CodeFormat,
    /// Whether the object file of each module of an archive is listed too.
    pub recursive: bool,
    /// How many steps of four spaces each line is indented.
    pub indent_level: u8,
    /// Whether British spelling is used.
    pub uk_spelling: bool,
}

impl Default for Options {
    fn default() -> (r: Options)
        ensures
            r == (Options {
                code_format: CodeFormat::NoCode,
                recursive: false,
                indent_level: 0,
                uk_spelling: false,
            }),
    {
        Options {
            code_format: CodeFormat::NoCode,
            recursive: false,
            indent_level: 0,
            uk_spelling: false,
        }
    }
}

/// Four spaces for each level.
pub open spec fn indent_text(level: u8) -> Seq<char> {
    Seq::new(4 * level as nat, |i: int| ' ')
}

impl Options {
    /// The same options, one level further in.
    pub fn indent(&self) -> (r: Options)
        requires
            self.indent_level < 255,
        ensures
            r == (Options { indent_level: (self.indent_level + 1) as u8, ..*self }),
    {
        Options { indent_level: self.indent_level + 1, ..*self }
    }

    /// Appends the indentation.
    pub fn write_indent(&self, out: &mut Vec<char>)
        ensures
            final(out)@ == old(out)@ + indent_text(self.indent_level),
    {
        let n: usize = 4 * self.indent_level as usize;
        let mut i: usize = 0;
        while i < n
            invariant
                n == 4 * self.indent_level,
                i <= n,
                out@ == old(out)@ + Seq::new(i as nat, |k: int| ' '),
            decreases n - i,
        {
            out.push(' ');
            i = i + 1;
            assert(out@ =~= old(out)@ + Seq::new(i as nat, |k: int| ' '));
        }
    }
}

/// ` 0a 1b ...`: each byte as a space and two hexadecimal digits.
pub open spec fn byte_cells(s: Seq<u8>) -> Seq<char>
    decreases s.len(),
{
    if s.len() == 0 {
        Seq::empty()
    } else {
        byte_cells(s.drop_last()) + seq![' '] + pad_left(hex(s.last() as nat), '0', 2)
    }
}

/// Rows of sixteen bytes from `start` on, each behind its offset.
pub open spec fn hex_rows(code: Seq<u8>, start: int, indent: Seq<char>) -> Seq<char>
    decreases code.len() - start,
{
    if start < 0 || start >= code.len() {
        Seq::empty()
    } else {
        let end = if start + 16 < code.len() {
            start + 16
        } else {
            code.len() as int
        };
        indent + pad_left(hex(start as nat), '0', 4) + ":"@ + byte_cells(code.subrange(start, end))
            + "\n"@ + hex_rows(code, end, indent)
    }
}

/// Relies on rabbitizer's `Instruction::new` (CPU instructions, at address
/// 0x80000000) and `Instruction::disassemble` without an immediate override.
/// The text also depends on rabbitizer's global configuration, so nothing is
/// claimed of it.
#[verifier::external_body]
fn disassemble(word: u32) -> (r: String) {
    rabbitizer::Instruction::new(word, 0x80000000, rabbitizer::InstrCategory::CPU).disassemble(
        None,
        0,
    )
}

/// The word of four bytes, least significant first.
pub open spec fn word_of(s: Seq<u8>) -> u32 {
    (s[0] as int + 256 * s[1] as int + 65536 * s[2] as int + 16777216 * s[3] as int) as u32
}

/// The text a disassembly table gives `w`: that of its first entry for `w`, or
/// nothing.
pub open spec fn insn_text(t: Seq<(u32, String)>, w: u32) -> Seq<char>
    decreases t.len(),
{
    if t.len() == 0 {
        Seq::empty()
    } else if t[0].0 == w {
        t[0].1@
    } else {
        insn_text(t.drop_first(), w)
    }
}

fn insn_lookup(t: &Vec<(u32, String)>, w: u32) -> (r: &str)
    ensures
        r@ == insn_text(t@, w),
{
    let mut i: usize = 0;
    assert(t@.skip(0) =~= t@);
    while i < t.len()
        invariant
            i <= t@.len(),
            insn_text(t@, w) == insn_text(t@.skip(i as int), w),
        decreases t@.len() - i,
    {
        proof {
            assert(t@.skip(i as int).drop_first() =~= t@.skip(i + 1));
        }
        assert(t@.skip(i as int)[0] == t@[i as int]);
        if t[i].0 == w {
            return t[i].1.as_str();
        }
        i = i + 1;
    }
    assert(t@.skip(i as int) =~= Seq::<(u32, String)>::empty());
    proof {
        reveal_strlit("");
    }
    ""
}

/// Rows of one instruction each from `start` on, with the text the table `t`
/// gives each word; bytes left over that make no whole word are shown as
/// invalid.
pub open spec fn disassembly_rows(code: Seq<u8>, start: int, indent: Seq<char>, t: Seq<(u32, String)>) -> Seq<char>
    decreases code.len() - start,
{
    if start < 0 || start >= code.len() {
        Seq::empty()
    } else if start + 4 <= code.len() {
        let w = word_of(code.subrange(start, start + 4));
        indent + "    /* "@ + pad_left(hex(w as nat), '0', 8) + " */   "@ + insn_text(t, w)
            + "\n"@ + disassembly_rows(code, start + 4, indent, t)
    } else {
        "    /* "@ + hex_bytes(code.subrange(start, code.len() as int)) + " */ ; invalid\n"@
    }
}

/// Bytes as two hexadecimal digits each, run together.
pub open spec fn hex_bytes(s: Seq<u8>) -> Seq<char>
    decreases s.len(),
{
    if s.len() == 0 {
        Seq::empty()
    } else {
        hex_bytes(s.drop_last()) + pad_left(hex(s.last() as nat), '0', 2)
    }
}

/// A record as listed: indentation, its line, and for code the listing the
/// options ask for.
pub open spec fn record_text(s: Section, o: Options, t: Seq<(u32, String)>) -> Seq<char> {
    indent_text(o.indent_level) + section_text(s, o.uk_spelling) + match s {
        Section::Code(c) => match o.code_format {
            CodeFormat::NoCode => Seq::empty(),
            CodeFormat::Hex => "\n\n"@ + hex_rows(c.code@, 0, indent_text(o.indent_level)),
            CodeFormat::Disassembly => "\n\n"@ + disassembly_rows(
                c.code@,
                0,
                indent_text(o.indent_level),
                t,
            ),
        },
        _ => Seq::empty(),
    }
}

/// The records as listed, each followed by a line break.
pub open spec fn records_text(s: Seq<Section>, o: Options, t: Seq<(u32, String)>) -> Seq<char>
    decreases s.len(),
{
    if s.len() == 0 {
        Seq::empty()
    } else {
        records_text(s.drop_last(), o, t) + record_text(s.last(), o, t) + "\n"@
    }
}

/// An object file as listed: a header line, then its records.
pub open spec fn obj_text(obj: OBJ, o: Options, t: Seq<(u32, String)>) -> Seq<char> {
    indent_text(o.indent_level) + "Header : LNK version "@ + dec(obj.version as nat) + "\n"@
        + records_text(obj.sections@, o, t)
}

fn push_byte_cells(out: &mut Vec<char>, code: &Vec<u8>, start: usize, end: usize)
    requires
        start <= end <= code@.len(),
    ensures
        final(out)@ == old(out)@ + byte_cells(code@.subrange(start as int, end as int)),
{
    let mut i: usize = start;
    while i < end
        invariant
            start <= i <= end <= code@.len(),
            out@ == old(out)@ + byte_cells(code@.subrange(start as int, i as int)),
        decreases end - i,
    {
        out.push(' ');
        push_hex_padded(out, code[i] as u64, 2);
        proof {
            assert(code@.subrange(start as int, i + 1).drop_last() =~= code@.subrange(
                start as int,
                i as int,
            ));
        }
        i = i + 1;
        assert(out@ =~= old(out)@ + byte_cells(code@.subrange(start as int, i as int)));
    }
}

fn push_hex_bytes(out: &mut Vec<char>, code: &Vec<u8>, start: usize, end: usize)
    requires
        start <= end <= code@.len(),
    ensures
        final(out)@ == old(out)@ + hex_bytes(code@.subrange(start as int, end as int)),
{
    let mut i: usize = start;
    while i < end
        invariant
            start <= i <= end <= code@.len(),
            out@ == old(out)@ + hex_bytes(code@.subrange(start as int, i as int)),
        decreases end - i,
    {
        push_hex_padded(out, code[i] as u64, 2);
        proof {
            assert(code@.subrange(start as int, i + 1).drop_last() =~= code@.subrange(
                start as int,
                i as int,
            ));
        }
        i = i + 1;
        assert(out@ =~= old(out)@ + hex_bytes(code@.subrange(start as int, i as int)));
    }
}

fn push_hex_rows(out: &mut Vec<char>, code: &Vec<u8>, start: usize, o: &Options)
    requires
        start <= code@.len(),
    ensures
        final(out)@ == old(out)@ + hex_rows(code@, start as int, indent_text(o.indent_level)),
    decreases code@.len() - start,
{
    if start >= code.len() {
        return;
    }
    let end: usize = if code.len() - start > 16 {
        start + 16
    } else {
        code.len()
    };
    o.write_indent(out);
    push_hex_padded(out, start as u64, 4);
    push_str(out, ":");
    push_byte_cells(out, code, start, end);
    push_str(out, "\n");
    let next: usize = if code.len() - start > 16 {
        start + 16
    } else {
        code.len()
    };
    push_hex_rows(out, code, next, o);
    assert(out@ =~= old(out)@ + hex_rows(code@, start as int, indent_text(o.indent_level)));
}

fn push_disassembly_rows(
    out: &mut Vec<char>,
    code: &Vec<u8>,
    start: usize,
    o: &Options,
    texts: &Vec<(u32, String)>,
)
    requires
        start <= code@.len(),
    ensures
        final(out)@ == old(out)@ + disassembly_rows(
            code@,
            start as int,
            indent_text(o.indent_level),
            texts@,
        ),
    decreases code@.len() - start,
{
    if start >= code.len() {
        return;
    }
    if code.len() - start >= 4 {
        let word: u32 = code[start] as u32 + 256 * (code[start + 1] as u32) + 65536 * (code[start
            + 2] as u32) + 16777216 * (code[start + 3] as u32);
        assert(word == word_of(code@.subrange(start as int, start + 4)));
        o.write_indent(out);
        push_str(out, "    /* ");
        push_hex_padded(out, word as u64, 8);
        push_str(out, " */   ");
        push_str(out, insn_lookup(texts, word));
        push_str(out, "\n");
        push_disassembly_rows(out, code, start + 4, o, texts);
        assert(out@ =~= old(out)@ + disassembly_rows(
            code@,
            start as int,
            indent_text(o.indent_level),
            texts@,
        ));
    } else {
        push_str(out, "    /* ");
        push_hex_bytes(out, code, start, code.len());
        push_str(out, " */ ; invalid\n");
        assert(out@ =~= old(out)@ + disassembly_rows(
            code@,
            start as int,
            indent_text(o.indent_level),
            texts@,
        ));
    }
}

/// Appends a record as listed.
pub fn push_record(out: &mut Vec<char>, s: &Section, o: &Options, texts: &Vec<(u32, String)>)
    ensures
        final(out)@ == old(out)@ + record_text(*s, *o, texts@),
{
    o.write_indent(out);
    push_section_text(out, s, o.uk_spelling);
    let ghost mid = out@;
    match s {
        Section::Code(c) => match o.code_format {
            CodeFormat::NoCode => {},
            CodeFormat::Hex => {
                push_str(out, "\n\n");
                push_hex_rows(out, &c.code, 0, o);
            },
            CodeFormat::Disassembly => {
                push_str(out, "\n\n");
                push_disassembly_rows(out, &c.code, 0, o, texts);
            },
        },
        _ => {},
    }
    assert(out@ =~= old(out)@ + record_text(*s, *o, texts@));
}

/// Appends an object file as listed.
pub fn push_obj(out: &mut Vec<char>, obj: &OBJ, o: &Options, texts: &Vec<(u32, String)>)
    ensures
        final(out)@ == old(out)@ + obj_text(*obj, *o, texts@),
{
    o.write_indent(out);
    push_str(out, "Header : LNK version ");
    push_dec(out, obj.version as u64);
    push_str(out, "\n");
    let ghost base = out@;
    let mut i: usize = 0;
    while i < obj.sections.len()
        invariant
            i <= obj.sections@.len(),
            out@ == base + records_text(obj.sections@.take(i as int), *o, texts@),
        decreases obj.sections@.len() - i,
    {
        push_record(out, &obj.sections[i], o, texts);
        push_str(out, "\n");
        proof {
            assert(obj.sections@.take(i + 1).drop_last() =~= obj.sections@.take(i as int));
        }
        i = i + 1;
        assert(out@ =~= base + records_text(obj.sections@.take(i as int), *o, texts@));
    }
    assert(obj.sections@.take(obj.sections@.len() as int) =~= obj.sections@);
    assert(out@ =~= old(out)@ + obj_text(*obj, *o, texts@));
}

/// `s` padded with spaces on the right to `width` characters.
pub open spec fn pad_right(s: Seq<char>, width: nat) -> Seq<char> {
    if s.len() < width {
        s + Seq::new((width - s.len()) as nat, |i: int| ' ')
    } else {
        s
    }
}

/// Each name followed by a space.
pub open spec fn names_text(s: Seq<Seq<char>>) -> Seq<char>
    decreases s.len(),
{
    if s.len() == 0 {
        Seq::empty()
    } else {
        names_text(s.drop_last()) + s.last() + " "@
    }
}

/// A module's line in an archive listing: its name in eight columns, its
/// creation time, and its exports.
pub open spec fn module_line(m: Module) -> Seq<char> {
    pad_right(utf8_lossy(trim_end(m.metadata.name@)), 8) + " "@ + timestamp_text(
        unpacked(m.metadata.created),
    ) + " "@ + names_text(export_names(m.metadata.exports@))
}

/// A module can be listed: its creation time exists.
pub open spec fn listable(m: Module) -> bool {
    timestamp_valid(m.metadata.created)
}

fn push_module_line(out: &mut Vec<char>, m: &Module)
    requires
        listable(*m),
    ensures
        final(out)@ == old(out)@ + module_line(*m),
{
    let name = m.name();
    let ghost start = out@;
    push_str(out, name.as_str());
    let n = name.as_str().unicode_len();
    if n < 8 {
        let mut k: usize = n;
        while k < 8
            invariant
                n == name@.len(),
                n <= k <= 8,
                out@ == start + name@ + Seq::new((k - n) as nat, |i: int| ' '),
            decreases 8 - k,
        {
            out.push(' ');
            k = k + 1;
            assert(out@ =~= start + name@ + Seq::new((k - n) as nat, |i: int| ' '));
        }
    }
    assert(out@ =~= start + pad_right(name@, 8));
    push_str(out, " ");
    let created = m.created();
    push_str(out, created.as_str());
    push_str(out, " ");
    let exports = m.exports();
    let ghost base = out@;
    let mut i: usize = 0;
    while i < exports.len()
        invariant
            i <= exports@.len(),
            out@ == base + names_text(exports@.map_values(|x: String| x@).take(i as int)),
        decreases exports@.len() - i,
    {
        push_str(out, exports[i].as_str());
        push_str(out, " ");
        proof {
            assert(exports@.map_values(|x: String| x@).take(i + 1).drop_last()
                =~= exports@.map_values(|x: String| x@).take(i as int));
        }
        i = i + 1;
        assert(out@ =~= base + names_text(exports@.map_values(|x: String| x@).take(i as int)));
    }
    assert(exports@.map_values(|x: String| x@).take(exports@.len() as int) =~= exports@.map_values(
        |x: String| x@,
    ));
    assert(out@ =~= old(out)@ + module_line(*m));
}

/// The modules of an archive as listed, each with its object file where the
/// options ask for it.
pub open spec fn modules_text(s: Seq<Module>, o: Options, t: Seq<(u32, String)>) -> Seq<char>
    decreases s.len(),
{
    if s.len() == 0 {
        Seq::empty()
    } else {
        modules_text(s.drop_last(), o, t) + module_entry(s.last(), o, t)
    }
}

/// An archive as listed: a heading, then a line for each module.
pub open spec fn lib_text(l: LIB, o: Options, t: Seq<(u32, String)>) -> Seq<char> {
    "Module     Date     Time   Externals defined\n\n"@ + modules_text(l.objs@, o, t)
}

/// A module's part of an archive listing.
pub open spec fn module_entry(m: Module, o: Options, t: Seq<(u32, String)>) -> Seq<char> {
    module_line(m) + "\n"@ + if o.recursive {
        "\n"@ + obj_text(m.obj, Options { indent_level: (o.indent_level + 1) as u8, ..o }, t)
            + "\n"@
    } else {
        Seq::empty()
    }
}

fn push_module_entry(out: &mut Vec<char>, m: &Module, o: &Options, texts: &Vec<(u32, String)>)
    requires
        o.recursive ==> o.indent_level < 255,
        listable(*m),
    ensures
        final(out)@ == old(out)@ + module_entry(*m, *o, texts@),
{
    push_module_line(out, m);
    push_str(out, "\n");
    if o.recursive {
        push_str(out, "\n");
        push_obj(out, &m.obj, &o.indent(), texts);
        push_str(out, "\n");
    }
    assert(out@ =~= old(out)@ + module_entry(*m, *o, texts@));
}

/// Appends an archive as listed.
pub fn push_lib(out: &mut Vec<char>, l: &LIB, o: &Options, texts: &Vec<(u32, String)>)
    requires
        o.recursive ==> o.indent_level < 255,
        forall|i: int| 0 <= i < l.objs@.len() ==> listable(#[trigger] l.objs@[i]),
    ensures
        final(out)@ == old(out)@ + lib_text(*l, *o, texts@),
{
    push_str(out, "Module     Date     Time   Externals defined\n\n");
    let ghost base = out@;
    let mut i: usize = 0;
    while i < l.objs.len()
        invariant
            i <= l.objs@.len(),
            o.recursive ==> o.indent_level < 255,
            forall|j: int| 0 <= j < l.objs@.len() ==> listable(#[trigger] l.objs@[j]),
            out@ == base + modules_text(l.objs@.take(i as int), *o, texts@),
        decreases l.objs@.len() - i,
    {
        push_module_entry(out, &l.objs[i], o, texts);
        proof {
            assert(l.objs@.take(i + 1).drop_last() =~= l.objs@.take(i as int));
        }
        i = i + 1;
        assert(out@ =~= base + modules_text(l.objs@.take(i as int), *o, texts@));
    }
    assert(l.objs@.take(l.objs@.len() as int) =~= l.objs@);
}

impl Module {
    /// The module's line in an archive listing.
    pub fn to_text(&self) -> (r: String)
        requires
            listable(*self),
        ensures
            r@ == module_line(*self),
    {
        let mut out: Vec<char> = Vec::new();
        push_module_line(&mut out, self);
        string_of(out)
    }
}

impl OBJ {
    /// This object file as listed with `options`, instructions shown with the
    /// text `texts` gives their words.
    pub fn to_text(&self, options: &Options, texts: &Vec<(u32, String)>) -> (r: String)
        ensures
            r@ == obj_text(*self, *options, texts@),
    {
        let mut out: Vec<char> = Vec::new();
        push_obj(&mut out, self, options, texts);
        string_of(out)
    }
}

impl LIB {
    /// This archive as listed with `options`, instructions shown with the text
    /// `texts` gives their words.
    pub fn to_text(&self, options: &Options, texts: &Vec<(u32, String)>) -> (r: String)
        requires
            options.recursive ==> options.indent_level < 255,
            forall|i: int| 0 <= i < self.objs@.len() ==> listable(#[trigger] self.objs@[i]),
        ensures
            r@ == lib_text(*self, *options, texts@),
    {
        let mut out: Vec<char> = Vec::new();
        push_lib(&mut out, self, options, texts);
        string_of(out)
    }
}

impl Section {
    /// This record as listed with `options`, instructions shown with the text
    /// `texts` gives their words.
    pub fn to_text(&self, options: &Options, texts: &Vec<(u32, String)>) -> (r: String)
        ensures
            r@ == record_text(*self, *options, texts@),
    {
        let mut out: Vec<char> = Vec::new();
        push_record(&mut out, self, options, texts);
        string_of(out)
    }
}

/// The words of a code record from `start` on, four bytes each; bytes left
/// over that make no whole word are not one.
pub open spec fn code_words(code: Seq<u8>, start: int) -> Seq<u32>
    decreases code.len() - start,
{
    if start < 0 || start + 4 > code.len() {
        Seq::empty()
    } else {
        seq![word_of(code.subrange(start, start + 4))] + code_words(code, start + 4)
    }
}

/// The words of all code records, in order.
pub open spec fn section_words(s: Seq<Section>) -> Seq<u32>
    decreases s.len(),
{
    if s.len() == 0 {
        Seq::empty()
    } else {
        section_words(s.drop_last()) + match s.last() {
            Section::Code(c) => code_words(c.code@, 0),
            _ => Seq::empty(),
        }
    }
}

/// The words a disassembly table has entries for, in order.
pub open spec fn table_words(t: Seq<(u32, String)>) -> Seq<u32> {
    t.map_values(|p: (u32, String)| p.0)
}

fn disassemble_code(code: &Vec<u8>, start: usize, table: &mut Vec<(u32, String)>)
    requires
        start <= code@.len(),
    ensures
        table_words(final(table)@) == table_words(old(table)@) + code_words(code@, start as int),
    decreases code@.len() - start,
{
    if code.len() - start < 4 {
        assert(table_words(table@) =~= table_words(old(table)@) + code_words(code@, start as int));
        return;
    }
    let word: u32 = code[start] as u32 + 256 * (code[start + 1] as u32) + 65536 * (code[start + 2]
        as u32) + 16777216 * (code[start + 3] as u32);
    assert(word == word_of(code@.subrange(start as int, start + 4)));
    table.push((word, disassemble(word)));
    let ghost mid = table@;
    disassemble_code(code, start + 4, table);
    assert(table_words(mid) =~= table_words(old(table)@) + seq![word]);
    assert(table_words(table@) =~= table_words(old(table)@) + code_words(code@, start as int));
}

/// Appends to `table` the text rabbitizer gives each word of the code records
/// of `obj`, in order. The words are stated; of their texts nothing is.
pub fn disassemble_obj(obj: &OBJ, table: &mut Vec<(u32, String)>)
    ensures
        table_words(final(table)@) == table_words(old(table)@) + section_words(obj.sections@),
{
    let mut i: usize = 0;
    while i < obj.sections.len()
        invariant
            i <= obj.sections@.len(),
            table_words(table@) == table_words(old(table)@) + section_words(
                obj.sections@.take(i as int),
            ),
        decreases obj.sections@.len() - i,
    {
        let ghost before = table@;
        proof {
            assert(obj.sections@.take(i + 1).drop_last() =~= obj.sections@.take(i as int));
        }
        match &obj.sections[i] {
            Section::Code(c) => disassemble_code(&c.code, 0, table),
            _ => {},
        }
        i = i + 1;
        assert(table_words(table@) =~= table_words(old(table)@) + section_words(
            obj.sections@.take(i as int),
        ));
    }
    assert(obj.sections@.take(obj.sections@.len() as int) =~= obj.sections@);
}

} // verus!
