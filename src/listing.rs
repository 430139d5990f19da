//! How records read in a listing: one line per record (a few records take
//! several), optionally followed by the code in hexadecimal or disassembled.
use vstd::prelude::*;

use crate::expression::{expr_text, render_expression};
use crate::section::{Dim, Section, section_tag};
use crate::text::{
    dec, hex, lossy_string, pad_left, push_dec, push_hex, push_hex_padded, push_signed_dec,
    push_str, signed_dec, utf8_lossy,
};

verus! {

/// The word for data without an initial value, in British or American spelling.
pub open spec fn uninit_word(uk: bool) -> Seq<char> {
    if uk {
        "Uninitialised"@
    } else {
        "Uninitialized"@
    }
}

fn uninit_str(uk: bool) -> (s: &'static str)
    ensures
        s@ == uninit_word(uk),
{
    if uk {
        "Uninitialised"
    } else {
        "Uninitialized"
    }
}

/// How dimensions read: `0`, or `1` and the value.
pub open spec fn dims_text(d: Dim) -> Seq<char> {
    match d {
        Dim::Absent => "0"@,
        Dim::Value(v) => "1 "@ + dec(v as nat),
    }
}

fn push_dims(out: &mut Vec<char>, d: &Dim)
    ensures
        final(out)@ == old(out)@ + dims_text(*d),
{
    match d {
        Dim::Absent => push_str(out, "0"),
        Dim::Value(v) => {
            push_str(out, "1 ");
            push_dec(out, *v as u64);
            assert(out@ =~= old(out)@ + dims_text(*d));
        },
    }
}

fn push_name(out: &mut Vec<char>, b: &Vec<u8>)
    ensures
        final(out)@ == old(out)@ + utf8_lossy(b@),
{
    let s = lossy_string(b.as_slice());
    push_str(out, s.as_str());
}

/// The line of a record, without indentation or code listing. `uk` picks the
/// British spelling.
pub open spec fn section_text(s: Section, uk: bool) -> Seq<char> {
    match s {
        Section::NOP => "0 : End of file"@,
        Section::Code(x) => "2 : Code "@ + dec(x.code@.len() as nat) + " bytes"@,
        Section::RunAtOffset(a0, a1) => "4 : Run at offset "@ + hex(a1 as nat) + " in "@ + hex(a0 as nat),
        Section::SectionSwitch(a0) => "6 : Switch to section "@ + hex(a0 as nat),
        Section::BSS(a0) => "8 : "@ + uninit_word(uk) + " data, "@ + dec(a0 as nat) + " bytes"@,
        Section::Patch(x) => "10 : Patch type "@ + dec(x.tag as nat) + " at offset "@ + hex(x.offset as nat) + " with "@ + expr_text(x.expression),
        Section::XDEF(x) => "12 : XDEF symbol number "@ + hex(x.number as nat) + " '"@ + utf8_lossy(x.symbol_name@) + "' at offset "@ + hex(x.offset as nat) + " in section "@ + hex(x.section as nat),
        Section::XREF(x) => "14 : XREF symbol number "@ + hex(x.number as nat) + " '"@ + utf8_lossy(x.symbol_name@) + "'"@,
        Section::LNKHeader(x) => "16 : Section symbol number "@ + hex(x.section as nat) + " '"@ + utf8_lossy(x.kind_name@) + "' in group "@ + dec(x.group as nat) + " alignment "@ + dec(x.align as nat),
        Section::LocalSymbol(x) => "18 : Local symbol '"@ + utf8_lossy(x.name@) + "' at offset "@ + hex(x.offset as nat) + " in section "@ + hex(x.section as nat),
        Section::GroupSymbol(x) => "20 : Group symbol number "@ + hex(x.number as nat) + " `"@ + utf8_lossy(x.name@) + "` type "@ + dec(x.sym_type as nat),
        Section::ByteSizeRegister(a0) => "22 : Set byte size register to reg offset "@ + dec(a0 as nat),
        Section::WordSizeRegister(a0) => "24 : Set word size register to reg offset "@ + dec(a0 as nat),
        Section::LongSizeRegister(a0) => "26 : Set long size register to reg offset "@ + dec(a0 as nat),
        Section::Filename(x) => "28 : Define file number "@ + hex(x.number as nat) + " as \""@ + utf8_lossy(x.name@) + "\""@,
        Section::SetToFile(a0, a1) => "30 : Set to "@ + hex(a0 as nat) + ", line "@ + dec(a1 as nat),
        Section::SetToLine(a0) => "32 : Set to line "@ + dec(a0 as nat),
        Section::IncrementLineNumber => "34 : Increment line number"@,
        Section::IncrementLineNumberByte(a0) => "36 : Increment line number by "@ + dec(a0 as nat),
        Section::IncrementLineNumberWord(a0) => "38 : Increment line number by "@ + dec(a0 as nat),
        Section::VeryLocalSymbol(x) => "40 : Very local symbol '"@ + utf8_lossy(x.name@) + "' at offset "@ + hex(x.offset as nat) + " in section "@ + hex(x.section as nat),
        Section::Set3ByteRegister(a0) => "42 : Set 3-byte size register to reg offset "@ + dec(a0 as nat),
        Section::SetMXInfo(x) => "44 : Set MX info at offset "@ + hex(x.offset as nat) + " to "@ + hex(x.value as nat),
        Section::CPU(a0) => "46 : Processor type "@ + dec(a0 as nat),
        Section::XBSS(x) => "48 : XBSS symbol number "@ + hex(x.number as nat) + " '"@ + utf8_lossy(x.name@) + "' size "@ + hex(x.size as nat) + " in section "@ + hex(x.section as nat),
        Section::IncSLDLineNum(a0) => "50 : Inc SLD linenum at offset "@ + hex(a0 as nat),
        Section::IncSLDLineNumByte(a0, a1) => "52 : Inc SLD linenum by byte "@ + dec(a1 as nat) + " at offset "@ + hex(a0 as nat),
        Section::IncSLDLineNumWord(a0, a1) => "54 : Inc SLD linenum by word "@ + dec(a1 as nat) + " at offset "@ + hex(a0 as nat),
        Section::SetSLDLineNum(x) => "56 : Set SLD linenum to "@ + dec(x.linenum as nat) + " at offset "@ + hex(x.offset as nat),
        Section::SetSLDLineNumFile(x) => "58 : Set SLD linenum to "@ + dec(x.linenum as nat) + " at offset "@ + hex(x.offset as nat) + " in file "@ + hex(x.file as nat),
        Section::EndSLDInfo(a0) => "60 : End SLD info at offset "@ + hex(a0 as nat),
        Section::RepeatByte(a0) => "62 : Repeat byte "@ + dec(a0 as nat) + " times"@,
        Section::RepeatWord(a0) => "64 : Repeat word "@ + dec(a0 as nat) + " times"@,
        Section::RepeatLong(a0) => "66 : Repeat long "@ + dec(a0 as nat) + " times"@,
        Section::ProcedureCall(x) => "68 : <<<<Unimplemented>>>> ProcedureCall { distance: "@ + dec(x.distance as nat) + ", symbol: "@ + dec(x.symbol as nat) + " }"@,
        Section::ProcedureDefinition(x) => "68 : <<<<Unimplemented>>>> ProcedureDefinition { symbol: "@ + dec(x.symbol as nat) + " }"@,
        Section::Repeat3Byte(a0) => "70 : Repeat 3-byte "@ + dec(a0 as nat) + " times"@,
        Section::FunctionStart(x) => "74 : Function start :\n  section "@ + pad_left(hex(x.section as nat), '0', 4) + "\n  offset $"@ + pad_left(hex(x.offset as nat), '0', 8) + "\n  file "@ + pad_left(hex(x.file as nat), '0', 4) + "\n  start line "@ + dec(x.linenum as nat) + "\n  frame reg "@ + dec(x.frame_register as nat) + "\n  frame size "@ + dec(x.frame_size as nat) + "\n  return pc reg "@ + dec(x.return_pc_register as nat) + "\n  mask $"@ + pad_left(hex(x.mask as nat), '0', 8) + "\n  mask offset "@ + signed_dec(x.mask_offset as int) + "\n  name "@ + utf8_lossy(x.name@),
        Section::FunctionEnd(x) => "76 : Function end :\n  section "@ + pad_left(hex(x.section as nat), '0', 4) + "\n  offset $"@ + pad_left(hex(x.offset as nat), '0', 8) + "\n  end line "@ + dec(x.linenum as nat),
        Section::BlockStart(x) => "78 : Block start :  section "@ + pad_left(hex(x.section as nat), '0', 4) + "\n  offset $"@ + pad_left(hex(x.offset as nat), '0', 8) + "\n  start line "@ + dec(x.linenum as nat),
        Section::BlockEnd(x) => "80 : Block end\n  section "@ + pad_left(hex(x.section as nat), '0', 4) + "\n  offset $"@ + pad_left(hex(x.offset as nat), '0', 8) + "\n  end line "@ + dec(x.linenum as nat),
        Section::Def(x) => "82 : Def :\n  section "@ + pad_left(hex(x.section as nat), '0', 4) + "\n  value $"@ + pad_left(hex(x.value as nat), '0', 8) + "\n  class "@ + dec(x.class as nat) + "\n  type "@ + dec(x.def_type as nat) + "\n  size "@ + dec(x.size as nat) + "\n  name : "@ + utf8_lossy(x.name@),
        Section::Def2(x) => "84 : Def2 :\n  section "@ + pad_left(hex(x.section as nat), '0', 4) + "\n  value $"@ + pad_left(hex(x.value as nat), '0', 8) + "\n  class "@ + dec(x.class as nat) + "\n  type "@ + dec(x.def_type as nat) + "\n  size "@ + dec(x.size as nat) + "\n  dims "@ + dims_text(x.dims) + " \n  tag "@ + utf8_lossy(x.tag@) + "\n"@ + utf8_lossy(x.name@),
    }
}

#[verifier::rlimit(100)]
fn push_section_text_0(out: &mut Vec<char>, s: &Section, uk: bool)
    requires
        section_tag(*s) <= 42,
    ensures
        final(out)@ == old(out)@ + section_text(*s, uk),
{
    let ghost start = out@;
    match s {
        Section::NOP => {
            push_str(out, "0 : End of file");
            assert(out@ =~= start + section_text(*s, uk));
        },
        Section::Code(x) => {
            push_str(out, "2 : Code ");
            push_dec(out, x.code.len() as u64);
            push_str(out, " bytes");
            assert(out@ =~= start + section_text(*s, uk));
        },
        Section::RunAtOffset(a0, a1) => {
            push_str(out, "4 : Run at offset ");
            push_hex(out, *a1 as u64);
            push_str(out, " in ");
            push_hex(out, *a0 as u64);
            assert(out@ =~= start + section_text(*s, uk));
        },
        Section::SectionSwitch(a0) => {
            push_str(out, "6 : Switch to section ");
            push_hex(out, *a0 as u64);
            assert(out@ =~= start + section_text(*s, uk));
        },
        Section::BSS(a0) => {
            push_str(out, "8 : ");
            push_str(out, uninit_str(uk));
            push_str(out, " data, ");
            push_dec(out, *a0 as u64);
            push_str(out, " bytes");
            assert(out@ =~= start + section_text(*s, uk));
        },
        Section::Patch(x) => {
            push_str(out, "10 : Patch type ");
            push_dec(out, x.tag as u64);
            push_str(out, " at offset ");
            push_hex(out, x.offset as u64);
            push_str(out, " with ");
            render_expression(&x.expression, out);
            assert(out@ =~= start + section_text(*s, uk));
        },
        Section::XDEF(x) => {
            push_str(out, "12 : XDEF symbol number ");
            push_hex(out, x.number as u64);
            push_str(out, " '");
            push_name(out, &x.symbol_name);
            push_str(out, "' at offset ");
            push_hex(out, x.offset as u64);
            push_str(out, " in section ");
            push_hex(out, x.section as u64);
            assert(out@ =~= start + section_text(*s, uk));
        },
        Section::XREF(x) => {
            push_str(out, "14 : XREF symbol number ");
            push_hex(out, x.number as u64);
            push_str(out, " '");
            push_name(out, &x.symbol_name);
            push_str(out, "'");
            assert(out@ =~= start + section_text(*s, uk));
        },
        Section::LNKHeader(x) => {
            push_str(out, "16 : Section symbol number ");
            push_hex(out, x.section as u64);
            push_str(out, " '");
            push_name(out, &x.kind_name);
            push_str(out, "' in group ");
            push_dec(out, x.group as u64);
            push_str(out, " alignment ");
            push_dec(out, x.align as u64);
            assert(out@ =~= start + section_text(*s, uk));
        },
        Section::LocalSymbol(x) => {
            push_str(out, "18 : Local symbol '");
            push_name(out, &x.name);
            push_str(out, "' at offset ");
            push_hex(out, x.offset as u64);
            push_str(out, " in section ");
            push_hex(out, x.section as u64);
            assert(out@ =~= start + section_text(*s, uk));
        },
        Section::GroupSymbol(x) => {
            push_str(out, "20 : Group symbol number ");
            push_hex(out, x.number as u64);
            push_str(out, " `");
            push_name(out, &x.name);
            push_str(out, "` type ");
            push_dec(out, x.sym_type as u64);
            assert(out@ =~= start + section_text(*s, uk));
        },
        Section::ByteSizeRegister(a0) => {
            push_str(out, "22 : Set byte size register to reg offset ");
            push_dec(out, *a0 as u64);
            assert(out@ =~= start + section_text(*s, uk));
        },
        Section::WordSizeRegister(a0) => {
            push_str(out, "24 : Set word size register to reg offset ");
            push_dec(out, *a0 as u64);
            assert(out@ =~= start + section_text(*s, uk));
        },
        Section::LongSizeRegister(a0) => {
            push_str(out, "26 : Set long size register to reg offset ");
            push_dec(out, *a0 as u64);
            assert(out@ =~= start + section_text(*s, uk));
        },
        Section::Filename(x) => {
            push_str(out, "28 : Define file number ");
            push_hex(out, x.number as u64);
            push_str(out, " as \"");
            push_name(out, &x.name);
            push_str(out, "\"");
            assert(out@ =~= start + section_text(*s, uk));
        },
        Section::SetToFile(a0, a1) => {
            push_str(out, "30 : Set to ");
            push_hex(out, *a0 as u64);
            push_str(out, ", line ");
            push_dec(out, *a1 as u64);
            assert(out@ =~= start + section_text(*s, uk));
        },
        Section::SetToLine(a0) => {
            push_str(out, "32 : Set to line ");
            push_dec(out, *a0 as u64);
            assert(out@ =~= start + section_text(*s, uk));
        },
        Section::IncrementLineNumber => {
            push_str(out, "34 : Increment line number");
            assert(out@ =~= start + section_text(*s, uk));
        },
        Section::IncrementLineNumberByte(a0) => {
            push_str(out, "36 : Increment line number by ");
            push_dec(out, *a0 as u64);
            assert(out@ =~= start + section_text(*s, uk));
        },
        Section::IncrementLineNumberWord(a0) => {
            push_str(out, "38 : Increment line number by ");
            push_dec(out, *a0 as u64);
            assert(out@ =~= start + section_text(*s, uk));
        },
        Section::VeryLocalSymbol(x) => {
            push_str(out, "40 : Very local symbol '");
            push_name(out, &x.name);
            push_str(out, "' at offset ");
            push_hex(out, x.offset as u64);
            push_str(out, " in section ");
            push_hex(out, x.section as u64);
            assert(out@ =~= start + section_text(*s, uk));
        },
        Section::Set3ByteRegister(a0) => {
            push_str(out, "42 : Set 3-byte size register to reg offset ");
            push_dec(out, *a0 as u64);
            assert(out@ =~= start + section_text(*s, uk));
        },
        _ => {},
    }
}

#[verifier::rlimit(100)]
fn push_section_text_1(out: &mut Vec<char>, s: &Section, uk: bool)
    requires
        section_tag(*s) > 42,
    ensures
        final(out)@ == old(out)@ + section_text(*s, uk),
{
    let ghost start = out@;
    match s {
        Section::SetMXInfo(x) => {
            push_str(out, "44 : Set MX info at offset ");
            push_hex(out, x.offset as u64);
            push_str(out, " to ");
            push_hex(out, x.value as u64);
            assert(out@ =~= start + section_text(*s, uk));
        },
        Section::CPU(a0) => {
            push_str(out, "46 : Processor type ");
            push_dec(out, *a0 as u64);
            assert(out@ =~= start + section_text(*s, uk));
        },
        Section::XBSS(x) => {
            push_str(out, "48 : XBSS symbol number ");
            push_hex(out, x.number as u64);
            push_str(out, " '");
            push_name(out, &x.name);
            push_str(out, "' size ");
            push_hex(out, x.size as u64);
            push_str(out, " in section ");
            push_hex(out, x.section as u64);
            assert(out@ =~= start + section_text(*s, uk));
        },
        Section::IncSLDLineNum(a0) => {
            push_str(out, "50 : Inc SLD linenum at offset ");
            push_hex(out, *a0 as u64);
            assert(out@ =~= start + section_text(*s, uk));
        },
        Section::IncSLDLineNumByte(a0, a1) => {
            push_str(out, "52 : Inc SLD linenum by byte ");
            push_dec(out, *a1 as u64);
            push_str(out, " at offset ");
            push_hex(out, *a0 as u64);
            assert(out@ =~= start + section_text(*s, uk));
        },
        Section::IncSLDLineNumWord(a0, a1) => {
            push_str(out, "54 : Inc SLD linenum by word ");
            push_dec(out, *a1 as u64);
            push_str(out, " at offset ");
            push_hex(out, *a0 as u64);
            assert(out@ =~= start + section_text(*s, uk));
        },
        Section::SetSLDLineNum(x) => {
            push_str(out, "56 : Set SLD linenum to ");
            push_dec(out, x.linenum as u64);
            push_str(out, " at offset ");
            push_hex(out, x.offset as u64);
            assert(out@ =~= start + section_text(*s, uk));
        },
        Section::SetSLDLineNumFile(x) => {
            push_str(out, "58 : Set SLD linenum to ");
            push_dec(out, x.linenum as u64);
            push_str(out, " at offset ");
            push_hex(out, x.offset as u64);
            push_str(out, " in file ");
            push_hex(out, x.file as u64);
            assert(out@ =~= start + section_text(*s, uk));
        },
        Section::EndSLDInfo(a0) => {
            push_str(out, "60 : End SLD info at offset ");
            push_hex(out, *a0 as u64);
            assert(out@ =~= start + section_text(*s, uk));
        },
        Section::RepeatByte(a0) => {
            push_str(out, "62 : Repeat byte ");
            push_dec(out, *a0 as u64);
            push_str(out, " times");
            assert(out@ =~= start + section_text(*s, uk));
        },
        Section::RepeatWord(a0) => {
            push_str(out, "64 : Repeat word ");
            push_dec(out, *a0 as u64);
            push_str(out, " times");
            assert(out@ =~= start + section_text(*s, uk));
        },
        Section::RepeatLong(a0) => {
            push_str(out, "66 : Repeat long ");
            push_dec(out, *a0 as u64);
            push_str(out, " times");
            assert(out@ =~= start + section_text(*s, uk));
        },
        Section::ProcedureCall(x) => {
            push_str(out, "68 : <<<<Unimplemented>>>> ProcedureCall { distance: ");
            push_dec(out, x.distance as u64);
            push_str(out, ", symbol: ");
            push_dec(out, x.symbol as u64);
            push_str(out, " }");
            assert(out@ =~= start + section_text(*s, uk));
        },
        Section::ProcedureDefinition(x) => {
            push_str(out, "68 : <<<<Unimplemented>>>> ProcedureDefinition { symbol: ");
            push_dec(out, x.symbol as u64);
            push_str(out, " }");
            assert(out@ =~= start + section_text(*s, uk));
        },
        Section::Repeat3Byte(a0) => {
            push_str(out, "70 : Repeat 3-byte ");
            push_dec(out, *a0 as u64);
            push_str(out, " times");
            assert(out@ =~= start + section_text(*s, uk));
        },
        Section::FunctionStart(x) => {
            push_str(out, "74 : Function start :\n  section ");
            push_hex_padded(out, x.section as u64, 4);
            push_str(out, "\n  offset $");
            push_hex_padded(out, x.offset as u64, 8);
            push_str(out, "\n  file ");
            push_hex_padded(out, x.file as u64, 4);
            push_str(out, "\n  start line ");
            push_dec(out, x.linenum as u64);
            push_str(out, "\n  frame reg ");
            push_dec(out, x.frame_register as u64);
            push_str(out, "\n  frame size ");
            push_dec(out, x.frame_size as u64);
            push_str(out, "\n  return pc reg ");
            push_dec(out, x.return_pc_register as u64);
            push_str(out, "\n  mask $");
            push_hex_padded(out, x.mask as u64, 8);
            push_str(out, "\n  mask offset ");
            push_signed_dec(out, x.mask_offset as i64);
            push_str(out, "\n  name ");
            push_name(out, &x.name);
            assert(out@ =~= start + section_text(*s, uk));
        },
        Section::FunctionEnd(x) => {
            push_str(out, "76 : Function end :\n  section ");
            push_hex_padded(out, x.section as u64, 4);
            push_str(out, "\n  offset $");
            push_hex_padded(out, x.offset as u64, 8);
            push_str(out, "\n  end line ");
            push_dec(out, x.linenum as u64);
            assert(out@ =~= start + section_text(*s, uk));
        },
        Section::BlockStart(x) => {
            push_str(out, "78 : Block start :  section ");
            push_hex_padded(out, x.section as u64, 4);
            push_str(out, "\n  offset $");
            push_hex_padded(out, x.offset as u64, 8);
            push_str(out, "\n  start line ");
            push_dec(out, x.linenum as u64);
            assert(out@ =~= start + section_text(*s, uk));
        },
        Section::BlockEnd(x) => {
            push_str(out, "80 : Block end\n  section ");
            push_hex_padded(out, x.section as u64, 4);
            push_str(out, "\n  offset $");
            push_hex_padded(out, x.offset as u64, 8);
            push_str(out, "\n  end line ");
            push_dec(out, x.linenum as u64);
            assert(out@ =~= start + section_text(*s, uk));
        },
        Section::Def(x) => {
            push_str(out, "82 : Def :\n  section ");
            push_hex_padded(out, x.section as u64, 4);
            push_str(out, "\n  value $");
            push_hex_padded(out, x.value as u64, 8);
            push_str(out, "\n  class ");
            push_dec(out, x.class as u64);
            push_str(out, "\n  type ");
            push_dec(out, x.def_type as u64);
            push_str(out, "\n  size ");
            push_dec(out, x.size as u64);
            push_str(out, "\n  name : ");
            push_name(out, &x.name);
            assert(out@ =~= start + section_text(*s, uk));
        },
        Section::Def2(x) => {
            push_str(out, "84 : Def2 :\n  section ");
            push_hex_padded(out, x.section as u64, 4);
            push_str(out, "\n  value $");
            push_hex_padded(out, x.value as u64, 8);
            push_str(out, "\n  class ");
            push_dec(out, x.class as u64);
            push_str(out, "\n  type ");
            push_dec(out, x.def_type as u64);
            push_str(out, "\n  size ");
            push_dec(out, x.size as u64);
            push_str(out, "\n  dims ");
            push_dims(out, &x.dims);
            push_str(out, " \n  tag ");
            push_name(out, &x.tag);
            push_str(out, "\n");
            push_name(out, &x.name);
            assert(out@ =~= start + section_text(*s, uk));
        },
        _ => {},
    }
}

/// Appends the line of a record.
pub fn push_section_text(out: &mut Vec<char>, s: &Section, uk: bool)
    ensures
        final(out)@ == old(out)@ + section_text(*s, uk),
{
    if s.tag() <= 42 {
        push_section_text_0(out, s, uk);
    } else {
        push_section_text_1(out, s, uk);
    }
}

} // verus!
