use flashboy::store::{
    self, duration_unit, load_or_new, pack, sidecar_extension, temp_path, unpack, Bank, FrameError,
    TimeUnit, Verdict,
};

#[test]
fn sidecar_keeps_cpp_stem() {
    let p = store::sidecar_path("/tmp/solve.cpp");
    assert!(p.ends_with("solve.cpp.fbk"));
}

#[test]
fn update_and_delete_cases() {
    let mut bank = Bank::new("p.cpp");
    let id = bank.add("a".into(), "1".into(), None);
    bank.add("b".into(), "2".into(), Some("x".into()));
    bank.get_mut(id).unwrap().input = "changed".into();
    assert_eq!(bank.cases[0].input, "changed");
    assert!(bank.remove(id));
    assert_eq!(bank.cases.len(), 1);
    assert_eq!(bank.cases[0].name, "b");
}

#[test]
fn sidecar_path_exact_values() {
    assert_eq!(store::sidecar_path("/tmp/solve.cpp"), "/tmp/solve.cpp.fbk");
    assert_eq!(store::sidecar_path("main.cc"), "main.cc.fbk");
    assert_eq!(store::sidecar_path("/tmp/Makefile"), "/tmp/Makefile.fbk");
    assert_eq!(store::sidecar_path("/tmp/.hidden"), "/tmp/.hidden.fbk");
}

#[test]
fn sidecar_extension_appends_fbk() {
    assert_eq!(sidecar_extension(Some("cpp")), "cpp.fbk");
    assert_eq!(sidecar_extension(None), "fbk");
}

#[test]
fn temp_path_replaces_extension() {
    assert_eq!(temp_path("/tmp/a.cpp.fbk"), "/tmp/a.cpp.fbk.tmp");
}

#[test]
fn add_assigns_increasing_ids() {
    let mut bank = Bank::new("p.cpp");
    assert_eq!(bank.next_id, 1);
    let a = bank.add("a".into(), "1".into(), None);
    let b = bank.add("b".into(), "2".into(), None);
    assert_eq!(a, 1);
    assert_eq!(b, 2);
    assert_eq!(bank.next_id, 3);
    assert!(bank.cases[1].last.is_none());
    assert_eq!(bank.index_of(b), Some(1));
    assert_eq!(bank.index_of(7), None);
}

#[test]
fn remove_missing_id_reports_false() {
    let mut bank = Bank::new("p.cpp");
    bank.add("a".into(), "1".into(), None);
    assert!(!bank.remove(42));
    assert_eq!(bank.cases.len(), 1);
    assert!(bank.get_mut(42).is_none());
}

#[test]
fn removed_case_is_not_found_again() {
    let mut bank = Bank::new("p.cpp");
    let a = bank.add("a".into(), "1".into(), None);
    let b = bank.add("b".into(), "2".into(), None);
    assert!(bank.remove(a));
    assert_eq!(bank.index_of(a), None);
    assert_eq!(bank.index_of(b), Some(0));
    assert_eq!(bank.next_id, 3);
}

#[test]
fn pack_then_unpack_gives_payload_back() {
    let raw: Vec<u8> = b"postcard bytes of a bank \x00\x01\x02".to_vec();
    let framed = pack(&raw).unwrap();
    assert_eq!(&framed[..4], b"FBK1");
    assert_ne!(&framed[4..], &raw[..]);
    let back = unpack(&framed).unwrap();
    assert_eq!(back, raw);
}

#[test]
fn pack_then_unpack_empty_payload() {
    let framed = pack(&[]).unwrap();
    assert_eq!(unpack(&framed).unwrap(), Vec::<u8>::new());
}

#[test]
fn unpack_rejects_wrong_magic() {
    assert_eq!(unpack(b"FBK"), Err(FrameError::NotABank));
    assert_eq!(unpack(b"XBK1abcdef"), Err(FrameError::NotABank));
    assert_eq!(unpack(b""), Err(FrameError::NotABank));
}

#[test]
fn unpack_rejects_corrupt_payload() {
    match unpack(b"FBK1not zstd at all") {
        Err(FrameError::Decompress(msg)) => assert!(!msg.is_empty()),
        other => panic!("unexpected {other:?}"),
    }
}

#[test]
fn load_or_new_without_file_makes_named_bank() {
    let r: Result<(String, Bank), String> = load_or_new("/tmp/solve.cpp", None);
    let (path, bank) = r.unwrap();
    assert_eq!(path, "/tmp/solve.cpp.fbk");
    assert_eq!(bank.source_name, "solve.cpp");
    assert_eq!(bank.next_id, 1);
    assert!(bank.cases.is_empty());
}

#[test]
fn load_or_new_passes_stored_bank_and_errors() {
    let mut stored = Bank::new("x.cpp");
    stored.add("c".into(), "in".into(), None);
    let (path, bank) = load_or_new::<String>("/tmp/x.cpp", Some(Ok(stored))).unwrap();
    assert_eq!(path, "/tmp/x.cpp.fbk");
    assert_eq!(bank.cases.len(), 1);
    let err = load_or_new::<String>("/tmp/x.cpp", Some(Err("broken".to_string())));
    assert_eq!(err.err(), Some("broken".to_string()));
}

#[test]
fn duration_unit_thresholds() {
    assert_eq!(duration_unit(0), TimeUnit::Nanos);
    assert_eq!(duration_unit(999), TimeUnit::Nanos);
    assert_eq!(duration_unit(1_000), TimeUnit::Micros);
    assert_eq!(duration_unit(999_999), TimeUnit::Micros);
    assert_eq!(duration_unit(1_000_000), TimeUnit::Millis);
    assert_eq!(duration_unit(999_999_999), TimeUnit::Millis);
    assert_eq!(duration_unit(1_000_000_000), TimeUnit::Secs);
}

#[test]
fn verdict_labels() {
    assert_eq!(Verdict::Pass.label(), "AC");
    assert_eq!(Verdict::Fail.label(), "WA");
    assert_eq!(Verdict::Tle.label(), "TLE");
    assert_eq!(Verdict::Runtime.label(), "RE");
    assert_eq!(Verdict::Ran.label(), "OK");
}
