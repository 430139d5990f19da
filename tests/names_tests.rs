use psyk::cli::stem_or_psyk;
use psyk::names::{path_to_module_name, string_to_module_name};

#[test]
fn test_bin_name() {
    assert_eq!("psyk", stem_or_psyk(None));
    assert_eq!("foo", stem_or_psyk(Some("/bin/foo".into())));
}

#[test]
fn bin_name_is_lower_case() {
    assert_eq!("dumpobj", stem_or_psyk(Some("C:/BIN/DUMPOBJ.EXE".into())));
    assert_eq!("psyk", stem_or_psyk(Some("/".into())));
}

#[test]
fn test_path_to_module_name() {
    assert_eq!(Some(*b"OUTPUT  "), path_to_module_name("some/output.obj"));
    assert_eq!(Some(*b"LONGNAME"), path_to_module_name("some/longname.obj"));
    // name is truncated to 8 characters
    assert_eq!(Some(*b"LONGERNA"), path_to_module_name("some/longername.obj"));
    // strings with code points that fit into 8-bytes are "fine"
    let name: [u8; 8] = "👾    ".as_bytes().try_into().unwrap();
    assert_eq!(Some(name), path_to_module_name("some/👾.obj"));
    // the second ☕ would not fit, so it is left out whole
    let name: [u8; 8] = "👾☕ ".as_bytes().try_into().unwrap();
    assert_eq!(Some(name), path_to_module_name("some/👾☕☕.obj"));
    // all 8-bytes consumed by multi-byte
    let name: [u8; 8] = "👾👾".as_bytes().try_into().unwrap();
    assert_eq!(Some(name), path_to_module_name("some/👾👾.obj"));
    // diacritics
    let name: [u8; 8] = "A͢B    ".as_bytes().try_into().unwrap();
    assert_eq!(Some(name), path_to_module_name("some/a͢b.obj"));
}

#[test]
fn module_name_without_file_name() {
    assert_eq!(None, path_to_module_name("."));
    assert_eq!(None, path_to_module_name("some/.."));
}

#[test]
fn module_name_keeps_whole_clusters() {
    let name: [u8; 8] = "👾☕ ".as_bytes().try_into().unwrap();
    assert_eq!(name, string_to_module_name("👾☕☕"));
    assert_eq!(*b"ABCDEFGH", string_to_module_name("ABCDEFGHIJ"));
    assert_eq!(*b"        ", string_to_module_name(""));
}
