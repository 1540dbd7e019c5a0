use drvcheck::paths::{resolve_harddisk_volume, resolve_sys_path, DosDevice, HashError, PathContext};
use drvcheck::text::{chars_eq_ignore_ascii_case, chars_of, join, trim_chars, white_space};
use drvcheck::wide::{
    decode_utf16_lossy, dos_device_query_name, encode_utf16_units, dos_device_target, wide_string, wide_to_string, windows_dir_from_buffer,
};

fn context() -> PathContext {
    PathContext {
        windows_dir: Some("C:\\Windows".to_string()),
        dos_devices: vec![
            DosDevice { drive: 'C', target: "\\Device\\HarddiskVolume3".to_string() },
            DosDevice { drive: 'D', target: "\\Device\\HarddiskVolume4".to_string() },
            DosDevice { drive: 'E', target: "\\DEVICE\\HARDDISKVOLUME4".to_string() },
        ],
    }
}

fn conversion_failure(r: Result<String, HashError>) -> String {
    match r {
        Err(HashError::PathConversionFailed(p)) => p,
        other => panic!("expected a conversion failure, got {:?}", other),
    }
}

#[test]
fn white_space_agrees_with_std() {
    for v in 0u32..0x110000 {
        if let Some(c) = char::from_u32(v) {
            assert_eq!(white_space(c), c.is_whitespace(), "code point {:#x}", v);
        }
    }
}

#[test]
fn trim_agrees_with_std() {
    for s in ["", "   ", "  abc ", "\t\nab c\r\n", "\u{3000}x\u{a0}", "x", " \u{2028}"] {
        let trimmed: String = trim_chars(&chars_of(s)).into_iter().collect();
        assert_eq!(trimmed, s.trim());
    }
}

#[test]
fn join_puts_separator_between_items() {
    let items = vec!["a".to_string(), "b".to_string(), "c".to_string()];
    assert_eq!(join(&items, ", "), "a, b, c");
    assert_eq!(join(&vec!["x".to_string()], ", "), "x");
    assert_eq!(join(&Vec::new(), ", "), "");
}

#[test]
fn ascii_case_is_ignored_only_for_letters() {
    assert!(chars_eq_ignore_ascii_case(&chars_of("HarddiskVolume"), &chars_of("HARDDISKvolume")));
    assert!(!chars_eq_ignore_ascii_case(&chars_of("Volume1"), &chars_of("Volume10")));
    assert!(!chars_eq_ignore_ascii_case(&chars_of("é"), &chars_of("É")));
}

#[test]
fn wide_string_is_nul_terminated_utf16() {
    assert_eq!(wide_string("C:"), vec![67u16, 58, 0]);
    assert_eq!(wide_string(""), vec![0u16]);
    assert_eq!(wide_string("a\u{1F600}"), vec![97u16, 0xD83D, 0xDE00, 0]);
}

#[test]
fn wide_roundtrip_gives_the_name_back() {
    for s in ["ntoskrnl.exe", "\\SystemRoot\\system32\\drivers\\x.sys", "δρ\u{1F600}"] {
        let w = wide_string(s);
        assert_eq!(wide_to_string(&w, w.len()), s);
    }
}

#[test]
fn wide_to_string_stops_at_nul_or_limit() {
    let buf = [104u16, 105, 0, 120, 121];
    assert_eq!(wide_to_string(&buf, 5), "hi");
    assert_eq!(wide_to_string(&buf, 1), "h");
    assert_eq!(wide_to_string(&buf, 0), "");
    let unpaired = [0xD800u16, 97];
    assert_eq!(wide_to_string(&unpaired, 2), "\u{FFFD}a");
    assert_eq!(wide_to_string(&unpaired, 2), String::from_utf16_lossy(&unpaired));
}

#[test]
fn windows_dir_needs_a_count_that_fits() {
    let mut buf = [0u16; 260];
    for (i, u) in "C:\\Windows".encode_utf16().enumerate() {
        buf[i] = u;
    }
    assert_eq!(windows_dir_from_buffer(&buf, 10), Some("C:\\Windows".to_string()));
    assert_eq!(windows_dir_from_buffer(&buf, 0), None);
    assert_eq!(windows_dir_from_buffer(&buf, 260), None);
    assert_eq!(windows_dir_from_buffer(&buf, 300), None);
}

#[test]
fn dos_device_names_and_targets() {
    assert_eq!(dos_device_query_name('C'), vec![67u16, 58, 0, 0]);
    let mut buf = [0u16; 512];
    for (i, u) in "\\Device\\HarddiskVolume3".encode_utf16().enumerate() {
        buf[i] = u;
    }
    assert_eq!(dos_device_target(&buf, 25), Some("\\Device\\HarddiskVolume3".to_string()));
    assert_eq!(dos_device_target(&buf, 0), None);
}

#[test]
fn empty_path_is_refused() {
    assert_eq!(conversion_failure(resolve_sys_path("", &context())), "empty path");
}

#[test]
fn system_root_goes_below_windows_directory() {
    assert_eq!(
        resolve_sys_path("\\SystemRoot\\system32\\drivers\\acpi.sys", &context()).unwrap(),
        "C:\\Windows\\system32\\drivers\\acpi.sys"
    );
    let no_dir = PathContext { windows_dir: None, dos_devices: Vec::new() };
    assert_eq!(
        conversion_failure(resolve_sys_path("\\SystemRoot\\x.sys", &no_dir)),
        "failed to get Windows directory"
    );
    // Without the trailing backslash the prefix is not recognized.
    assert_eq!(resolve_sys_path("\\SystemRootX", &context()).unwrap(), "\\SystemRootX");
}

#[test]
fn harddisk_volume_goes_onto_its_drive() {
    let ctx = context();
    assert_eq!(
        resolve_sys_path("\\Device\\HarddiskVolume3\\Windows\\x.sys", &ctx).unwrap(),
        "C:\\Windows\\x.sys"
    );
    assert_eq!(resolve_sys_path("\\Device\\HarddiskVolume4\\y.sys", &ctx).unwrap(), "D:\\y.sys");
    assert_eq!(resolve_sys_path("\\Device\\HarddiskVolume3", &ctx).unwrap(), "C:");
    assert_eq!(
        conversion_failure(resolve_sys_path("\\Device\\HarddiskVolume9\\z.sys", &ctx)),
        "could not resolve volume: \\Device\\HarddiskVolume9\\z.sys"
    );
    assert_eq!(resolve_harddisk_volume("\\Device\\HarddiskVolume33\\a", &ctx.dos_devices), None);
    assert_eq!(resolve_harddisk_volume("C:\\a", &ctx.dos_devices), None);
}

#[test]
fn harddisk_volume_compares_without_ascii_case() {
    let ctx = PathContext {
        windows_dir: None,
        dos_devices: vec![DosDevice { drive: 'F', target: "\\device\\harddiskvolume7".to_string() }],
    };
    assert_eq!(
        resolve_harddisk_volume("\\Device\\HarddiskVolume7\\p.sys", &ctx.dos_devices),
        Some("F:\\p.sys".to_string())
    );
}

#[test]
fn nt_and_dos_device_prefixes_are_stripped() {
    let ctx = context();
    assert_eq!(resolve_sys_path("\\??\\C:\\drivers\\a.sys", &ctx).unwrap(), "C:\\drivers\\a.sys");
    assert_eq!(
        resolve_sys_path("\\DosDevices\\C:\\drivers\\a.sys", &ctx).unwrap(),
        "C:\\drivers\\a.sys"
    );
    assert_eq!(resolve_sys_path("C:\\plain\\b.sys", &ctx).unwrap(), "C:\\plain\\b.sys");
    assert_eq!(resolve_sys_path("system32\\c.sys", &ctx).unwrap(), "system32\\c.sys");
}

#[test]
fn hash_error_messages() {
    assert_eq!(
        HashError::PathConversionFailed("empty path".to_string()).message(),
        "path conversion failed: empty path"
    );
    assert_eq!(HashError::FileNotFound("C:\\a".to_string()).message(), "file not found: C:\\a");
    assert_eq!(HashError::AccessDenied("C:\\a".to_string()).message(), "access denied: C:\\a");
    assert_eq!(HashError::ReadFailed("x: y".to_string()).message(), "read failed: x: y");
}

#[test]
fn wide_to_string_with_an_unbounded_limit() {
    let w = wide_string("acpi.sys");
    assert_eq!(wide_to_string(&w, usize::MAX), "acpi.sys");
    assert_eq!(wide_to_string(&[104u16, 105], usize::MAX), "hi");
    assert_eq!(dos_device_target(&[104u16, 105], 1000), Some("hi".to_string()));
}

#[test]
fn utf16_encoding_agrees_with_std() {
    for s in ["", "abc", "\u{7ff}\u{800}\u{ffff}", "\u{10000}\u{10ffff}", "δρ\u{1F600}x", "\u{fffd}"] {
        assert_eq!(encode_utf16_units(s), s.encode_utf16().collect::<Vec<u16>>());
    }
    let cases: Vec<Vec<u16>> = vec![
        vec![],
        vec![0xD800],
        vec![0xDC00, 0x61],
        vec![0xD800, 0xD800, 0xDC00],
        vec![0xDBFF, 0xDFFF, 0xD83D],
        vec![0x61, 0xD83D, 0xDE00, 0xFFFF, 0xE000],
    ];
    for u in cases {
        assert_eq!(decode_utf16_lossy(&u), String::from_utf16_lossy(&u));
    }
}
