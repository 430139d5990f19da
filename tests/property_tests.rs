use psyk::archive::decode_opaque_module;
use psyk::cli::{disassembly_table, info, path_stem, replacement_files, updated_modules, without_modules};
use psyk::expression::{decode_expression, encode_expression};
use psyk::io::{read, read_lib, read_obj, write_lib, write_obj, DecodeError, Type};
use psyk::section::{decode_section, encode_section};
use psyk::timestamp::{decode_timestamp, encode_timestamp};
use psyk::{CodeFormat, DateTime, Export, Module, ModuleMetadata, Options, Section, LIB, OBJ};

/// "LIB", version 1, and one module named MIN whose object file is only a NOP.
fn minimal_archive() -> Vec<u8> {
    let mut b = b"LIB\x01".to_vec();
    b.extend_from_slice(b"MIN     ");
    b.extend_from_slice(&0x813320afu32.to_le_bytes());
    b.extend_from_slice(&21u32.to_le_bytes());
    b.extend_from_slice(&26u32.to_le_bytes());
    b.push(0);
    b.extend_from_slice(b"LNK\x02\x00");
    b
}

/// An object file with an XDEF of `sprintf` and an XREF of `memcpy`.
fn sprintf_obj() -> Vec<u8> {
    let mut b = b"LNK\x02".to_vec();
    b.extend_from_slice(b"\x0C\x01\x00\x02\x00\x10\x00\x00\x00\x07sprintf");
    b.extend_from_slice(b"\x0E\x02\x00\x06memcpy");
    b.push(0);
    b
}

#[test]
fn minimal_archive_round_trip() {
    let bytes = minimal_archive();
    let lib = read_lib(&bytes).expect("lib");
    assert_eq!(lib.modules().len(), 1);
    assert_eq!(lib.modules()[0].object().sections(), &vec![Section::NOP]);
    assert_eq!(lib.modules()[0].name(), "MIN");
    assert_eq!(write_lib(&lib), bytes);
}

#[test]
fn object_round_trip() {
    let bytes = sprintf_obj();
    let obj = read_obj(&bytes).expect("obj");
    assert_eq!(write_obj(&obj), bytes);
    match read(&bytes) {
        Ok(Type::OBJ(o)) => assert_eq!(o, obj),
        other => panic!("{:?}", other),
    }
}

#[test]
fn exports_of_an_object() {
    let obj = read_obj(&sprintf_obj()).expect("obj");
    assert_eq!(obj.exports(), vec!["sprintf".to_string()]);
}

#[test]
fn empty_archive_is_refused() {
    assert_eq!(read_lib(b"LIB\x01"), Err(DecodeError::EmptyArchive));
    assert_eq!(read(b"LIB\x01"), Err(DecodeError::EmptyArchive));
}

#[test]
fn archive_with_a_bad_second_module() {
    let mut bytes = minimal_archive();
    bytes.extend_from_slice(b"JUNK");
    assert_eq!(read_lib(&bytes), Err(DecodeError::BadModule(30)));
    assert_eq!(DecodeError::BadModule(30).message(), "no module could be read at 0x1e");
}

#[test]
fn object_without_nop_is_refused() {
    assert_eq!(read_obj(b"LNK\x02\x2E\x07"), Err(DecodeError::NoVariantMatched(6)));
    assert_eq!(read_obj(b"LNK"), Err(DecodeError::UnexpectedEnd(3)));
    assert_eq!(DecodeError::UnexpectedEnd(3).message(), "unexpected end of input at 0x3");
}

#[test]
fn data_after_the_object_is_refused() {
    assert_eq!(read_obj(b"LNK\x02\x00\x00"), Err(DecodeError::TrailingData(5)));
    assert_eq!(
        DecodeError::TrailingData(5).message(),
        "unexpected data after the object file at 0x5"
    );
}

#[test]
fn unconfirmed_records_are_refused() {
    assert!(decode_section(b"\x42\x01\x00\x00\x00", 0).is_none());
    assert!(decode_section(b"\x44\x01\x02\x00", 0).is_none());
    assert!(decode_section(b"\x46\x02\x00", 0).is_none());
    assert!(decode_section(b"\x01", 0).is_none());
    assert!(decode_section(b"\x56", 0).is_none());
}

#[test]
fn patch_with_tag_82_renders() {
    let bytes = b"\x0A\x52\x1F\x00\x4A\x00\x02\x00\x00\x00\x2E\x34\x00\xFC\xFF\xFF\xFF\x2C\x04\x01\x00\x00\x22\x00\x00\x00\x2C\x04\x01\x00\x00\x60\x00\x00\x00";
    let (section, n) = decode_section(bytes, 0).expect("patch");
    assert_eq!(n, bytes.len());
    assert_eq!(
        section.to_text(&Options::default(), &vec![]),
        "10 : Patch type 82 at offset 1f with ($2-arshift_chk-(($fffffffc&(sectbase(1)+$22))-(sectbase(1)+$60)))"
    );
    let mut out = Vec::new();
    encode_section(&section, &mut out);
    assert_eq!(out, bytes.to_vec());
}

#[test]
fn expression_round_trip() {
    let bytes = b"\x2C\x04\x01\x00\x00\x22\x00\x00\x00";
    let (e, n) = decode_expression(bytes, 0).expect("expression");
    assert_eq!(n, 9);
    let mut out = Vec::new();
    encode_expression(&e, &mut out);
    assert_eq!(out, bytes.to_vec());
    assert!(decode_expression(b"\x2C\x04\x01", 0).is_none());
    assert!(decode_expression(b"\x01", 0).is_none());
}

#[test]
fn timestamp_round_trip() {
    for t in [0x813320afu32, 0x8d061f4c, 0x00000021, 0xbf7dff9f] {
        let dt = decode_timestamp(t).expect("valid");
        assert_eq!(encode_timestamp(&dt), t);
    }
}

#[test]
fn timestamp_out_of_range() {
    let date = |y: u32, m: u32, d: u32| (y << 9) | (m << 5) | d;
    let time = |h: u32, mi: u32, s: u32| ((h << 11) | (mi << 5) | s) << 16;
    assert!(decode_timestamp(date(16, 5, 15) | time(16, 9, 19)).is_some());
    assert!(decode_timestamp(date(16, 0, 15) | time(16, 9, 19)).is_none());
    assert!(decode_timestamp(date(16, 13, 15) | time(16, 9, 19)).is_none());
    assert!(decode_timestamp(date(16, 5, 0) | time(16, 9, 19)).is_none());
    assert!(decode_timestamp(date(16, 2, 30) | time(16, 9, 19)).is_none());
    assert!(decode_timestamp(date(16, 2, 29) | time(16, 9, 19)).is_some());
    assert!(decode_timestamp(date(17, 2, 29) | time(16, 9, 19)).is_none());
    assert!(decode_timestamp(date(16, 5, 15) | time(24, 9, 19)).is_none());
    assert!(decode_timestamp(date(16, 5, 15) | time(16, 60, 19)).is_none());
    assert!(decode_timestamp(date(16, 5, 15) | time(16, 9, 30)).is_none());
}

#[test]
fn odd_seconds_round_down() {
    let dt = DateTime { year: 1996, month: 5, day: 15, hour: 16, minute: 9, second: 39 };
    assert_eq!(encode_timestamp(&dt), 0x813320af);
    assert_eq!(dt.to_text(), "15-05-96 16:09:39");
}

#[test]
fn metadata_sizes_are_derived() {
    let dt = DateTime { year: 1996, month: 5, day: 15, hour: 16, minute: 9, second: 38 };
    let m = ModuleMetadata::new(
        "foo".to_string(),
        dt,
        5,
        vec![Export::new("abc".to_string())],
    );
    assert_eq!(m.name(), "foo");
    assert_eq!(m.offset, 25);
    assert_eq!(m.size, 30);
    assert_eq!(m.created, 0x813320af);
    assert_eq!(m.exports.len(), 2);
    assert_eq!(m.exports(), vec!["abc".to_string()]);
    assert_eq!(m.created(), "15-05-96 16:09:38");
}

#[test]
fn exports_leave_out_the_terminator() {
    let dt = DateTime { year: 1996, month: 5, day: 15, hour: 16, minute: 9, second: 38 };
    let m = ModuleMetadata::new("x".to_string(), dt, 0, vec![]);
    assert_eq!(m.exports(), Vec::<String>::new());
    assert_eq!(Export::empty().name(), "");
}

#[test]
fn export_names() {
    assert_eq!(Export::new("\0hidden".to_string()).name(), "*hidden");
    assert_eq!(Export::new("a".repeat(300)).name_size(), 255);
    let e = Export { name: vec![b'a', 0xFF] };
    assert_eq!(e.name(), "a\u{FFFD}");
}

#[test]
fn metadata_name_is_trimmed() {
    // the object file is taken to be the metadata's size less 16 bytes long
    let mut bytes = minimal_archive();
    bytes.extend_from_slice(&[0xEE; 5]);
    let (m, n) = decode_opaque_module(&bytes, 4).expect("opaque");
    assert_eq!(m.name(), "MIN");
    assert_eq!(m.obj_blob(), b"LNK\x02\x00\xEE\xEE\xEE\xEE\xEE");
    assert_eq!(n, bytes.len());
    assert!(decode_opaque_module(&minimal_archive(), 4).is_none());
}

#[test]
fn created_at_is_utc() {
    let lib = read_lib(&minimal_archive()).expect("lib");
    assert_eq!(lib.modules()[0].created_at(), Some(832176578));
}

#[test]
fn delete_modules_by_name() {
    let lib = read_lib(&minimal_archive()).expect("lib");
    let kept = without_modules(lib.modules().clone(), &vec!["OTHER".to_string()]);
    assert_eq!(kept.len(), 1);
    let kept = without_modules(lib.modules().clone(), &vec!["MIN".to_string()]);
    assert!(kept.is_empty());
}

#[test]
fn info_of_an_archive() {
    let lib = read_lib(&minimal_archive()).expect("lib");
    let text = info(&Type::LIB(lib.clone()), false, false, false, false, &vec![]);
    assert_eq!(
        text,
        "Module     Date     Time   Externals defined\n\nMIN      15-05-96 16:09:38 \n\n"
    );
    let text = info(&Type::LIB(lib), false, false, true, false, &vec![]);
    assert_eq!(
        text,
        "Module     Date     Time   Externals defined\n\nMIN      15-05-96 16:09:38 \n\n    Header : LNK version 2\n    0 : End of file\n\n\n"
    );
}

#[test]
fn info_of_an_object() {
    let obj = read_obj(&sprintf_obj()).expect("obj");
    let text = info(&Type::OBJ(obj), false, false, false, true, &vec![]);
    assert_eq!(
        text,
        "Header : LNK version 2\n12 : XDEF symbol number 1 'sprintf' at offset 10 in section 2\n14 : XREF symbol number 2 'memcpy'\n0 : End of file\n\n"
    );
}

#[test]
fn bss_spelling() {
    let s = Section::BSS(16);
    let mut o = Options::default();
    assert_eq!(s.to_text(&o, &vec![]), "8 : Uninitialized data, 16 bytes");
    o.uk_spelling = true;
    assert_eq!(s.to_text(&o, &vec![]), "8 : Uninitialised data, 16 bytes");
}

#[test]
fn code_listings() {
    let (code, _) = decode_section(b"\x02\x05\x00\x08\x00\xE0\x03\xAA", 0).expect("code");
    let none = vec![];
    let mut o = Options::default();
    assert_eq!(code.to_text(&o, &none), "2 : Code 5 bytes");
    o.code_format = CodeFormat::Hex;
    assert_eq!(code.to_text(&o, &none), "2 : Code 5 bytes\n\n0000: 08 00 e0 03 aa\n");
    o.code_format = CodeFormat::Disassembly;
    let texts = vec![(0x03e00008u32, "jr $ra".to_string())];
    assert_eq!(
        code.to_text(&o, &texts),
        "2 : Code 5 bytes\n\n    /* 03e00008 */   jr $ra\n    /* aa */ ; invalid\n"
    );
}

#[test]
fn disassembly_of_an_object() {
    let mut b = b"LNK\x02\x02\x08\x00\x08\x00\xE0\x03\x00\x00\x00\x00".to_vec();
    b.push(0);
    let obj = read_obj(&b).expect("obj");
    let file = Type::OBJ(obj.clone());
    let texts = disassembly_table(&file);
    assert_eq!(texts.len(), 2);
    assert_eq!(texts[0].0, 0x03e00008);
    assert!(texts[0].1.starts_with("jr"));
    assert_eq!(texts[1].0, 0);
    let text = info(&file, false, true, false, false, &texts);
    assert!(text.contains("    /* 03e00008 */   jr"));
}

#[test]
fn new_archive_and_object() {
    let obj = OBJ::new(vec![Section::NOP]);
    assert_eq!(obj.version(), 2);
    let dt = DateTime { year: 1996, month: 5, day: 15, hour: 16, minute: 9, second: 38 };
    let m = ModuleMetadata::new("MIN".to_string(), dt, 5, vec![]);
    let lib = LIB::new(vec![Module::new(obj, m)]);
    assert_eq!(write_lib(&lib), minimal_archive());
}

#[test]
fn options_indent() {
    let o = Options::default().indent();
    assert_eq!(o.indent_level, 1);
    let mut out = Vec::new();
    o.write_indent(&mut out);
    assert_eq!(out, vec![' '; 4]);
}

#[test]
fn empty_export_names_are_left_out() {
    let mut b = b"LNK\x02".to_vec();
    b.extend_from_slice(b"\x0C\x01\x00\x02\x00\x10\x00\x00\x00\x00");
    b.extend_from_slice(b"\x30\x03\x00\x02\x00\x04\x00\x00\x00\x03buf");
    b.push(0);
    let obj = read_obj(&b).expect("obj");
    assert_eq!(obj.exports(), vec!["buf".to_string()]);
}

#[test]
fn update_picks_the_last_file_of_a_name() {
    let lib = read_lib(&minimal_archive()).expect("lib");
    let stems = vec![
        path_stem("a/MIN.OBJ").expect("stem"),
        path_stem("b/OTHER.OBJ").expect("stem"),
        path_stem("c/MIN.OBJ").expect("stem"),
    ];
    assert_eq!(stems[0], "MIN");
    assert_eq!(replacement_files(lib.modules(), &stems), vec![Some(2)]);
    assert_eq!(replacement_files(lib.modules(), &stems[1..2].to_vec()), vec![None]);
}

#[test]
fn update_keeps_a_module_that_could_not_be_read() {
    let lib = read_lib(&minimal_archive()).expect("lib");
    let kept = updated_modules(lib.modules().clone(), vec![None]);
    assert_eq!(&kept, lib.modules());

    let dt = DateTime { year: 1995, month: 10, day: 12, hour: 17, minute: 40, second: 12 };
    let other = Module::new(
        OBJ::new(vec![Section::NOP]),
        ModuleMetadata::new("MIN".to_string(), dt, 5, vec![]),
    );
    let replaced = updated_modules(lib.modules().clone(), vec![Some(other.clone())]);
    assert_eq!(replaced, vec![other]);
}

#[test]
fn non_ascii_export_name_comes_back() {
    assert_eq!(Export::new("café".to_string()).name(), "café");
}

#[test]
fn module_name_upper_cases_ascii_only() {
    let name: [u8; 8] = "éTé   ".as_bytes().try_into().unwrap();
    assert_eq!(Some(name), psyk::names::path_to_module_name("x/été.obj"));
}

#[test]
fn metadata_for_an_object_file() {
    let obj = read_obj(&sprintf_obj()).expect("obj");
    let dt = DateTime { year: 1996, month: 5, day: 15, hour: 16, minute: 9, second: 38 };
    let m = ModuleMetadata::for_object("lib/sprintf.obj", dt, 40, &obj).expect("metadata");
    assert_eq!(m.name(), "SPRINTF");
    assert_eq!(m.exports(), vec!["sprintf".to_string()]);
    assert_eq!(m.offset, 29);
    assert_eq!(m.size, 69);
    assert!(ModuleMetadata::for_object(".", dt, 40, &obj).is_none());
    assert!(ModuleMetadata::for_object("x.obj", dt, u32::MAX, &obj).is_none());
}
