use fcp::scan::{
    build_manifest, fingerprint, fingerprint_windows, is_compressible, make_entry, relative_path, sample_ranges,
    Manifest, ScanError,
};

#[test]
fn fingerprint_is_deterministic() {
    let data: Vec<u8> = (0..10000u32).map(|i| (i % 256) as u8).collect();
    assert_eq!(fingerprint(&data), fingerprint(&data.clone()));
    assert_eq!(fingerprint(&data).len(), 32);
}

#[test]
fn fingerprint_of_small_file_is_its_digest() {
    let fp = fingerprint(b"abc");
    assert_eq!(&fp[..4], &[0xba, 0x78, 0x16, 0xbf]);
}

#[test]
fn fingerprint_sees_changes_in_both_windows() {
    let data = vec![7u8; 10000];
    let base = fingerprint(&data);
    for &i in &[0usize, 4095, 5904, 9999] {
        let mut d = data.clone();
        d[i] = 8;
        assert_ne!(fingerprint(&d), base, "byte {} lies in a sampled window", i);
    }
}

#[test]
fn fingerprint_misses_interior_changes_of_large_files() {
    let data = vec![7u8; 10000];
    let base = fingerprint(&data);
    for &i in &[4096usize, 5000, 5903] {
        let mut d = data.clone();
        d[i] = 8;
        assert_eq!(fingerprint(&d), base, "byte {} is not sampled", i);
    }
}

#[test]
fn fingerprint_of_medium_file_covers_every_byte() {
    let data = vec![1u8; 6000];
    let base = fingerprint(&data);
    let mut d = data.clone();
    d[5000] = 2;
    assert_ne!(fingerprint(&d), base);
}

#[test]
fn compressible_by_extension() {
    assert!(is_compressible("notes.txt"));
    assert!(is_compressible("a/b/Report.JSON"));
    assert!(is_compressible("x.tar.md"));
    assert!(is_compressible("site/style.css"));
    assert!(is_compressible("conf.toml"));
    assert!(!is_compressible("photo.jpg"));
    assert!(!is_compressible("b/c.bin"));
    assert!(!is_compressible(".md"));
    assert!(!is_compressible("Makefile"));
    assert!(!is_compressible("dir.txt/file"));
    assert!(!is_compressible("a.txtx"));
}

#[test]
fn relative_paths_below_a_root() {
    assert_eq!(relative_path("src", "src/a/b.txt"), Some("a/b.txt".to_string()));
    assert_eq!(relative_path("", "x/y"), Some("x/y".to_string()));
    assert_eq!(relative_path("src", "srcx/a"), None);
    assert_eq!(relative_path("src", "src"), None);
}

#[test]
fn manifest_keeps_each_path_once() {
    let mut m = Manifest::new();
    assert!(m.add(make_entry("a.txt".to_string(), 3, 0, b"abc")).is_ok());
    assert!(m.add(make_entry("b/c.bin".to_string(), 1, 0, b"z")).is_ok());
    assert_eq!(
        m.add(make_entry("a.txt".to_string(), 5, 9, b"other")).unwrap_err(),
        ScanError::DuplicatePath
    );
    assert_eq!(m.len(), 2);
    assert_eq!(m.get(0).relative_path, "a.txt");
    assert_eq!(m.get(1).relative_path, "b/c.bin");
    assert!(m.get(0).compressible);
    assert!(!m.get(1).compressible);
    assert_eq!(m.get(0).fingerprint, fingerprint(b"abc"));
}

#[test]
fn fingerprint_from_windows_matches_whole_content() {
    let data: Vec<u8> = (0..9000u32).map(|i| (i * 31 % 256) as u8).collect();
    assert_eq!(fingerprint_windows(&data[..4096], &data[9000 - 4096..]), fingerprint(&data));
    let small = b"hello";
    assert_eq!(fingerprint_windows(small, &[]), fingerprint(small));
}

#[test]
fn sample_ranges_by_size() {
    assert_eq!(sample_ranges(0), (0, None));
    assert_eq!(sample_ranges(4096), (4096, None));
    assert_eq!(sample_ranges(4097), (4096, Some(1)));
    assert_eq!(sample_ranges(10000), (4096, Some(5904)));
}

#[test]
fn built_manifest_has_one_entry_per_file() {
    let found = vec![
        make_entry("a.txt".to_string(), 1, 0, b"a"),
        make_entry("b/c.bin".to_string(), 1, 0, b"c"),
        make_entry("b/d.md".to_string(), 1, 0, b"d"),
    ];
    let m = build_manifest(&found);
    assert_eq!(m.len(), 3);
    assert_eq!(m.get(0).relative_path, "a.txt");
    assert_eq!(m.get(1).relative_path, "b/c.bin");
    assert_eq!(m.get(2).relative_path, "b/d.md");
    assert!(m.get(2).compressible);
}

#[test]
fn built_manifest_drops_repeated_paths() {
    let found = vec![
        make_entry("a.txt".to_string(), 1, 0, b"a"),
        make_entry("a.txt".to_string(), 2, 0, b"bb"),
    ];
    let m = build_manifest(&found);
    assert_eq!(m.len(), 1);
    assert_eq!(m.get(0).size, 1);
}
