use psyk::archive::decode_module;
use psyk::io::{read, read_lib, read_obj, DecodeError};
use psyk::LIB;

// Three damaged inputs: a text file, an archive cut short inside its first
// module, and an object file cut short inside its first record.
const TRUNCATED_TXT: &[u8] = b"txt\nnot an object file\n";
const TRUNCATED_LIB: &[u8] = b"LIB\x01\x41\x35\x36\x20\x20";
const TRUNCATED_OBJ: &[u8] = b"LNK\x02\x2E";

#[test]
fn test_lib_creation() {
    let bytes = b"\
       \x4C\x49\x42\x01\x41\x35\x36\x20\x20\x20\x20\x20\xAF\x20\x2C\x81\
       \x1A\x00\x00\x00\x8E\x00\x00\x00\x04\x65\x78\x69\x74\x00\x4C\x4E\
       \x4B\x02\x2E\x07\x10\x04\xF0\x00\x00\x08\x06\x2E\x72\x64\x61\x74\
       \x61\x10\x00\xF0\x00\x00\x08\x05\x2E\x74\x65\x78\x74\x10\x01\xF0\
       \x00\x00\x08\x05\x2E\x64\x61\x74\x61\x10\x03\xF0\x00\x00\x08\x06\
       \x2E\x73\x64\x61\x74\x61\x10\x05\xF0\x00\x00\x08\x04\x2E\x62\x73\
       \x73\x10\x02\xF0\x00\x00\x08\x05\x2E\x73\x62\x73\x73\x0C\x01\x00\
       \x00\xF0\x00\x00\x00\x00\x04\x65\x78\x69\x74\x06\x00\xF0\x02\x10\
       \x00\xB0\x00\x0A\x24\x08\x00\x40\x01\x38\x00\x09\x24\x00\x00\x00\
       \x00\x00";
    let lib = read_lib(bytes).expect("lib");

    let modules = lib.modules();

    let new_lib = LIB::new(modules.clone());

    assert_eq!(lib, new_lib);
}

#[test]
fn test_file_too_small() {
    let e = read(&[]).expect_err("error");
    assert_eq!(e, DecodeError::TooSmall);
    assert_eq!("File too small to contain valid PSY-Q magic number", e.message());
}

#[test]
fn test_bad_files() {
    let e = read(TRUNCATED_TXT).expect_err("error");
    assert_eq!("Unrecognized magic [116, 120, 116]", e.message());

    let e = read(TRUNCATED_LIB).expect_err("error");
    assert_eq!("assertion failed: `! objs.is_empty()` at 0x0", e.message());

    let e = read(TRUNCATED_OBJ).expect_err("error");
    let msg = e.message();
    assert!(msg.starts_with(" 0: Error: no variants matched at 0x4..."));
}

#[test]
fn test_bad_obj_files() {
    let e = read_obj(TRUNCATED_TXT).expect_err("error");
    assert_eq!("bad magic at 0x0: [116, 120, 116]", e.message());

    let e = read_obj(TRUNCATED_LIB).expect_err("error");
    assert_eq!("bad magic at 0x0: [76, 73, 66]", e.message());

    let e = read_obj(TRUNCATED_OBJ).expect_err("error");
    let msg = e.message();
    assert!(msg.starts_with(" 0: Error: no variants matched at 0x4..."));
}

#[test]
fn test_bad_lib_files() {
    let e = read_lib(TRUNCATED_TXT).expect_err("error");
    assert_eq!("bad magic at 0x0: [116, 120, 116]", e.message());

    let e = read_lib(TRUNCATED_LIB).expect_err("error");
    assert_eq!("assertion failed: `! objs.is_empty()` at 0x0", e.message());

    let e = read_lib(TRUNCATED_OBJ).expect_err("error");
    assert_eq!("bad magic at 0x0: [76, 78, 75]", e.message());
}

#[test]
fn truncated_module_is_not_read() {
    assert!(decode_module(TRUNCATED_LIB, 4).is_none());
}
