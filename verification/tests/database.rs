use drvcheck::digest::{
    begin_hash_driver, decode_hex_chars, file_sha256_result, finish_hash_driver, sha256_hex,
    FileRead, HashStep,
};
use drvcheck::paths::{HashError, PathContext};
use drvcheck::report::{match_driver, vuln_alert_lines};
use drvcheck::text::chars_of;
use drvcheck::vuln::{DbDocument, DocumentMember, DriverEntry, VulnDb, VulnMatch, VulnSample};

const ABC_DIGEST: &str = "ba7816bf8f01cfea414140de5dae2223b00361a396177a9cb410ff61f20015ad";
const EMPTY_DIGEST: &str = "e3b0c44298fc1c149afbf4c8996fb92427ae41e4649b934ca495991b7852b855";

fn sample(filename: &str, sha256: &str) -> VulnSample {
    VulnSample {
        filename: filename.to_string(),
        sha256: sha256.to_string(),
        md5: String::new(),
        sha1: String::new(),
        publisher: String::new(),
        company: String::new(),
        description: String::new(),
        product: String::new(),
        product_version: String::new(),
        file_version: String::new(),
        signature: String::new(),
        original_filename: String::new(),
    }
}

fn driver(category: &str, samples: Vec<VulnSample>) -> DriverEntry {
    DriverEntry {
        id: "id".to_string(),
        category: category.to_string(),
        tags: vec!["tag1".to_string(), "tag2".to_string()],
        author: "author".to_string(),
        mitre_id: "T1068".to_string(),
        created: "2023-01-01".to_string(),
        resources: vec!["https://example.org".to_string()],
        known_vulnerable_samples: samples,
    }
}

fn example_entries() -> Vec<Option<DriverEntry>> {
    vec![
        Some(driver(
            "vulnerable driver",
            vec![
                sample("first.sys", &ABC_DIGEST.to_uppercase()),
                sample("nohash.sys", ""),
                sample("short.sys", "abcd"),
                sample("bad.sys", &format!("{}zz", &ABC_DIGEST[..62])),
            ],
        )),
        None,
        Some(driver(
            "malicious",
            vec![
                sample("second.sys", &format!("  {}\n", ABC_DIGEST)),
                sample("empty.sys", EMPTY_DIGEST),
            ],
        )),
    ]
}

#[test]
fn sha256_of_known_inputs() {
    assert_eq!(sha256_hex(b"abc"), ABC_DIGEST);
    assert_eq!(sha256_hex(b""), EMPTY_DIGEST);
    let h = sha256_hex(&[7u8; 100000]);
    assert_eq!(h.len(), 64);
    assert!(h.chars().all(|c| c.is_ascii_digit() || ('a'..='f').contains(&c)));
}

#[test]
fn read_failure_after_open_is_an_error() {
    match file_sha256_result("C:\\locked.sys", FileRead::ReadFailed { detail: "locked".to_string() }) {
        Err(HashError::ReadFailed(p)) => assert_eq!(p, "C:\\locked.sys: locked"),
        other => panic!("{:?}", other),
    }
    let done = finish_hash_driver("x", "C:\\locked.sys".to_string(), FileRead::ReadFailed { detail: "locked".to_string() });
    assert!(done.sha256.is_none());
    assert!(matches!(done.error, Some(HashError::ReadFailed(_))));
}

#[test]
fn found_sample_carries_the_looked_up_digest() {
    let db = VulnDb::build_from_entries(&example_entries()).unwrap();
    for text in [ABC_DIGEST.to_string(), ABC_DIGEST.to_uppercase(), format!(" {} ", ABC_DIGEST), EMPTY_DIGEST.to_string()] {
        let m = db.lookup(&text).unwrap();
        assert_eq!(
            hex::decode(m.sample.sha256.trim()).unwrap(),
            hex::decode(text.trim()).unwrap()
        );
    }
}

#[test]
fn hex_decoding_accepts_both_cases() {
    assert_eq!(decode_hex_chars(&chars_of("0aFf")), Some(vec![0x0a, 0xff]));
    assert_eq!(decode_hex_chars(&chars_of("0aF")), None);
    assert_eq!(decode_hex_chars(&chars_of("0g")), None);
    assert_eq!(decode_hex_chars(&chars_of("")), Some(Vec::new()));
}

#[test]
fn file_results_map_open_failures() {
    assert_eq!(file_sha256_result("C:\\a.sys", FileRead::Contents(b"abc".to_vec())).unwrap(), ABC_DIGEST);
    match file_sha256_result("C:\\a.sys", FileRead::OpenFailed { code: 2, detail: "gone".to_string() }) {
        Err(HashError::FileNotFound(p)) => assert_eq!(p, "C:\\a.sys"),
        other => panic!("{:?}", other),
    }
    match file_sha256_result("C:\\a.sys", FileRead::OpenFailed { code: 5, detail: "no".to_string() }) {
        Err(HashError::AccessDenied(p)) => assert_eq!(p, "C:\\a.sys"),
        other => panic!("{:?}", other),
    }
    match file_sha256_result("C:\\a.sys", FileRead::OpenFailed { code: 32, detail: "in use".to_string() }) {
        Err(HashError::ReadFailed(p)) => assert_eq!(p, "C:\\a.sys: in use"),
        other => panic!("{:?}", other),
    }
}

#[test]
fn hashing_a_driver_in_two_steps() {
    let ctx = PathContext { windows_dir: Some("C:\\Windows".to_string()), dos_devices: Vec::new() };
    let path = match begin_hash_driver("\\SystemRoot\\x.sys", &ctx) {
        HashStep::ReadFile { resolved_path } => resolved_path,
        HashStep::Done(_) => panic!("path should resolve"),
    };
    assert_eq!(path, "C:\\Windows\\x.sys");
    let done = finish_hash_driver("\\SystemRoot\\x.sys", path, FileRead::Contents(Vec::new()));
    assert_eq!(done.sys_path, "\\SystemRoot\\x.sys");
    assert_eq!(done.resolved_path, "C:\\Windows\\x.sys");
    assert_eq!(done.sha256.as_deref(), Some(EMPTY_DIGEST));
    assert!(done.error.is_none());

    match begin_hash_driver("", &ctx) {
        HashStep::Done(h) => {
            assert_eq!(h.sys_path, "");
            assert_eq!(h.resolved_path, "");
            assert!(h.sha256.is_none());
            assert!(matches!(h.error, Some(HashError::PathConversionFailed(_))));
        }
        HashStep::ReadFile { .. } => panic!("empty path must fail"),
    }
}

#[test]
fn sample_names_and_publishers() {
    let mut s = sample("file.sys", "");
    s.product = "Product".to_string();
    assert_eq!(s.display_name(), "file.sys");
    s.original_filename = "orig.sys".to_string();
    assert_eq!(s.display_name(), "orig.sys");
    let mut t = sample("", "");
    assert_eq!(t.display_name(), "<unknown>");
    t.product = "P".to_string();
    assert_eq!(t.display_name(), "P");
    assert_eq!(t.publisher(), "<unknown>");
    t.company = "Co".to_string();
    assert_eq!(t.publisher(), "Co");
    t.publisher = "Pub".to_string();
    assert_eq!(t.publisher(), "Pub");
}

#[test]
fn risk_display_falls_back_to_tags() {
    let mut m = VulnMatch {
        driver_category: "malicious".to_string(),
        driver_tags: vec!["a".to_string(), "b".to_string()],
        driver_author: String::new(),
        driver_mitre: String::new(),
        driver_resources: Vec::new(),
        sample: sample("x", ""),
    };
    assert_eq!(m.risk_display(), "malicious");
    m.driver_category = String::new();
    assert_eq!(m.risk_display(), "a, b");
    m.driver_tags = Vec::new();
    assert_eq!(m.risk_display(), "N/A");
}

#[test]
fn build_keeps_the_first_sample_of_each_digest() {
    let db = VulnDb::build_from_entries(&example_entries()).unwrap();
    assert_eq!(db.count(), 2);
    let m = db.lookup(ABC_DIGEST).unwrap();
    assert_eq!(m.sample.filename, "first.sys");
    assert_eq!(m.driver_category, "vulnerable driver");
    assert_eq!(m.driver_tags, vec!["tag1".to_string(), "tag2".to_string()]);
    assert_eq!(db.lookup(EMPTY_DIGEST).unwrap().sample.filename, "empty.sys");
}

#[test]
fn lookup_ignores_case_and_surrounding_space() {
    let db = VulnDb::build_from_entries(&example_entries()).unwrap();
    assert!(db.lookup(&ABC_DIGEST.to_uppercase()).is_some());
    assert!(db.lookup(&format!("\t{} ", ABC_DIGEST)).is_some());
    assert!(db.lookup(&ABC_DIGEST[..62]).is_none());
    assert!(db.lookup("not hex").is_none());
    assert!(db.lookup(&"00".repeat(32)).is_none());
}

#[test]
fn empty_database() {
    let db = VulnDb::build_from_entries(&Vec::new()).unwrap();
    assert_eq!(db.count(), 0);
    assert!(db.lookup(ABC_DIGEST).is_none());
}

#[test]
fn many_digests_are_all_found() {
    let mut samples = Vec::new();
    for i in 0..300u32 {
        samples.push(sample(&format!("s{}.sys", i), &sha256_hex(&i.to_le_bytes())));
    }
    let db = VulnDb::build_from_entries(&vec![Some(driver("c", samples))]).unwrap();
    assert_eq!(db.count(), 300);
    for i in 0..300u32 {
        let m = db.lookup(&sha256_hex(&i.to_le_bytes())).unwrap();
        assert_eq!(m.sample.filename, format!("s{}.sys", i));
    }
}

#[test]
fn load_picks_the_driver_array() {
    let db = VulnDb::load(&DbDocument::Array(example_entries())).unwrap();
    assert_eq!(db.count(), 2);

    let members = vec![
        DocumentMember { name: "results".to_string(), entries: Vec::new() },
        DocumentMember { name: "drivers".to_string(), entries: example_entries() },
    ];
    let db = VulnDb::load(&DbDocument::Object(members)).unwrap();
    assert_eq!(db.count(), 2);

    let members = vec![
        DocumentMember { name: "drivers".to_string(), entries: example_entries() },
        DocumentMember { name: "VulnerableDrivers".to_string(), entries: Vec::new() },
    ];
    let db = VulnDb::load(&DbDocument::Object(members)).unwrap();
    assert_eq!(db.count(), 0);
}

#[test]
fn load_errors() {
    let members = vec![DocumentMember { name: "other".to_string(), entries: example_entries() }];
    assert_eq!(
        VulnDb::load(&DbDocument::Object(members)).err(),
        Some("no recognizable driver array found in JSON".to_string())
    );
    assert_eq!(VulnDb::load(&DbDocument::Other).err(), Some("unexpected JSON root type".to_string()));
}

#[test]
fn alert_for_a_matched_driver() {
    let db = VulnDb::build_from_entries(&example_entries()).unwrap();
    let ctx = PathContext { windows_dir: Some("C:\\Windows".to_string()), dos_devices: Vec::new() };
    let resolved = match begin_hash_driver("\\??\\C:\\first.sys", &ctx) {
        HashStep::ReadFile { resolved_path } => resolved_path,
        HashStep::Done(_) => panic!("path should resolve"),
    };
    let result = finish_hash_driver("\\??\\C:\\first.sys", resolved, FileRead::Contents(b"abc".to_vec()));
    let m = match_driver(&db, &result).unwrap();
    let lines = vuln_alert_lines(&result, m);
    let bang = "!".repeat(76);
    let expected = vec![
        String::new(),
        bang.clone(),
        "!!  VULNERABLE DRIVER DETECTED                                           !!".to_string(),
        bang.clone(),
        "  Driver Name    : first.sys".to_string(),
        "  Product        : ".to_string(),
        "  Publisher      : <unknown>".to_string(),
        "  Risk Level     : vulnerable driver".to_string(),
        "  File Path      : C:\\first.sys".to_string(),
        format!("  SHA256         : {}", ABC_DIGEST),
        "  Tags           : tag1, tag2".to_string(),
        "  MITRE          : T1068".to_string(),
        "  References     : https://example.org".to_string(),
        "  REMEDIATION    : Remove or quarantine the driver file. Block via HVCI/GPO.".to_string(),
        bang,
        String::new(),
    ];
    assert_eq!(lines, expected);

    let missing = finish_hash_driver("x", "x".to_string(), FileRead::Contents(b"zzz".to_vec()));
    assert!(match_driver(&db, &missing).is_none());
    let failed = finish_hash_driver("x", "x".to_string(), FileRead::OpenFailed { code: 2, detail: String::new() });
    assert!(match_driver(&db, &failed).is_none());
}
