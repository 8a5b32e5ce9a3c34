use wdic_gateway::security::{PathValidator, SearchResultFilter, SecureFileReader, SecurityError};

#[test]
fn test_path_validation() {
    let temp_dir = tempfile::tempdir().unwrap();
    let allowed_roots = vec![temp_dir.path().to_string_lossy().to_string()];
    let validator = PathValidator::new(allowed_roots);

    // a normal path under the root
    let normal_path = temp_dir.path().join("test.txt").to_string_lossy().to_string();
    assert!(validator.validate_and_normalize(&normal_path).is_ok());

    // climbing out of the root
    let traversal_path = format!("{}/../../../etc/passwd", temp_dir.path().display());
    assert!(validator.validate_and_normalize(&traversal_path).is_err());

    // a relative path that climbs
    assert!(validator.validate_and_normalize("../../../etc/passwd").is_err());
}

#[test]
fn test_path_normalization() {
    let validator = PathValidator::new(vec![]);

    let path_with_dots = "/home/user/./documents/./file.txt";
    let normalized = validator.normalize_path(path_with_dots).unwrap();
    assert_eq!(normalized, "/home/user/documents/file.txt");

    let path_with_parent = "/home/user/documents/../file.txt";
    let normalized = validator.normalize_path(path_with_parent).unwrap();
    assert_eq!(normalized, "/home/user/file.txt");
}

#[test]
fn test_search_result_filter() {
    let filter = SearchResultFilter::new();

    let results = vec![
        "/home/user/document.txt".to_string(),
        "/home/user/.ssh/id_rsa".to_string(),
        "/etc/passwd".to_string(),
        "/home/user/.gitignore".to_string(),
        "/home/user/public/file.txt".to_string(),
    ];

    let filtered = filter.filter_results(results);

    assert_eq!(filtered.len(), 3);
    assert!(filtered.contains(&"/home/user/document.txt".to_string()));
    assert!(filtered.contains(&"/home/user/public/file.txt".to_string()));
    assert!(filtered.contains(&"/home/user/.gitignore".to_string()));

    assert!(!filtered.contains(&"/home/user/.ssh/id_rsa".to_string()));
    assert!(!filtered.contains(&"/etc/passwd".to_string()));
}

#[test]
fn test_directory_depth_validation() {
    let validator = PathValidator::new(vec![]);

    let normal_path = "/home/user/documents/file.txt";
    assert!(validator.validate_directory_depth(normal_path).is_ok());

    let deep_path_str = "/".to_owned() + &"a/".repeat(50);
    assert!(validator.validate_directory_depth(&deep_path_str).is_err());
}

#[test]
fn normalize_keeps_relative_paths_relative() {
    let validator = PathValidator::new(vec![]);
    assert_eq!(validator.normalize_path("./a/b/../c").unwrap(), "a/c");
    assert_eq!(validator.normalize_path("a/..").unwrap(), "");
    assert_eq!(validator.normalize_path("//x///y/").unwrap(), "/x/y");
    assert_eq!(validator.normalize_path("/").unwrap(), "/");
}

#[test]
fn normalize_reports_traversal_and_illegal_characters() {
    let validator = PathValidator::new(vec![]);
    assert!(matches!(validator.normalize_path("/.."), Err(SecurityError::PathTraversal)));
    assert!(matches!(validator.normalize_path(".."), Err(SecurityError::PathTraversal)));
    match validator.normalize_path("/home/bad\u{0}name/x") {
        Err(SecurityError::IllegalCharacter { name }) => assert_eq!(name, "bad\u{0}name"),
        other => panic!("unexpected result: {:?}", other),
    }
    match validator.normalize_path("/a/\u{1}") {
        Err(SecurityError::IllegalCharacter { name }) => assert_eq!(name, "\u{1}"),
        other => panic!("unexpected result: {:?}", other),
    }
}

#[test]
fn validate_reports_each_error_kind() {
    let validator = PathValidator::new(vec!["/srv/share".to_string()]);
    let long = "/srv/share/".to_owned() + &"x".repeat(5000);
    match validator.validate_and_normalize(&long) {
        Err(SecurityError::PathTooLong { length }) => assert_eq!(length, 5011),
        other => panic!("unexpected result: {:?}", other),
    }
    match validator.validate_and_normalize("/srv/other/file") {
        Err(SecurityError::AccessDenied { path }) => assert_eq!(path, "/srv/other/file"),
        other => panic!("unexpected result: {:?}", other),
    }
    // a root is matched by whole components, not by text
    assert!(validator.validate_and_normalize("/srv/shared/file").is_err());
    assert_eq!(
        validator.validate_and_normalize("/srv/share/./docs/../a.txt").unwrap(),
        "/srv/share/a.txt"
    );
    assert!(matches!(
        validator.validate_and_normalize("/srv/share/../../.."),
        Err(SecurityError::PathTraversal)
    ));
}

#[test]
fn depth_limit_is_inclusive() {
    let validator = PathValidator::new(vec![]);
    // the root and 31 names: 32 components
    let at_limit = "/".to_owned() + &"d/".repeat(31);
    assert!(validator.validate_directory_depth(&at_limit).is_ok());
    let over = "/".to_owned() + &"d/".repeat(32);
    match validator.validate_directory_depth(&over) {
        Err(SecurityError::DirectoryTooDeep { depth }) => assert_eq!(depth, 33),
        other => panic!("unexpected result: {:?}", other),
    }
}

#[test]
fn file_reader_checks_path_and_size() {
    let reader = SecureFileReader::new(vec!["/data".to_string()], 1024);
    assert_eq!(reader.check_path("/data/x/../y.txt").unwrap(), "/data/y.txt");
    assert!(reader.check_path("/data/../etc/passwd").is_err());
    assert!(reader.check_file_size(1024).is_ok());
    match reader.check_file_size(1025) {
        Err(SecurityError::FileTooLarge { size, limit }) => {
            assert_eq!(size, 1025);
            assert_eq!(limit, 1024);
        }
        other => panic!("unexpected result: {:?}", other),
    }
}

#[test]
fn filter_ignores_case_and_keeps_order() {
    let filter = SearchResultFilter::new();
    let results = vec![
        "/B/file".to_string(),
        "/Home/.SSH/key".to_string(),
        "/A/CONFIG/x".to_string(),
        "/a/.hidden".to_string(),
        "/a/.env.example".to_string(),
        "/a/b".to_string(),
    ];
    let filtered = filter.filter_results(results);
    assert_eq!(filtered, vec!["/B/file".to_string(), "/a/b".to_string()]);
    assert!(filter.is_path_allowed("/x/.dockerignore"));
    assert!(!filter.is_path_allowed("/x/.env.example"));
    assert!(filter.is_path_allowed("/x/."));
}

#[test]
fn filter_caps_the_number_of_results() {
    let filter = SearchResultFilter::new();
    let results: Vec<String> = (0..1005).map(|i| format!("/files/{}", i)).collect();
    let filtered = filter.filter_results(results);
    assert_eq!(filtered.len(), 1000);
    assert_eq!(filtered[0], "/files/0");
    assert_eq!(filtered[999], "/files/999");
}

#[test]
fn normalizing_twice_changes_nothing() {
    let validator = PathValidator::new(vec![]);
    for path in ["/a/./b/../c//d/", "x/y/../z", ".", "/", "", "./q/./r", "/../..", "a/.."] {
        if let Ok(once) = validator.normalize_path(path) {
            let twice = validator.normalize_path(&once).unwrap();
            assert_eq!(once, twice, "{}", path);
        }
    }
    assert_eq!(validator.normalize_path("/a/./b/../c//d/").unwrap(), "/a/c/d");
    assert_eq!(validator.normalize_path("a/..").unwrap(), "");
}

/// Reads `file` the way the gateway does, when asked for it under `path`:
/// the path is checked and normalised, the size is checked, then the file
/// is read.
fn read_checked(reader: &SecureFileReader, path: &str, file: &tempfile::NamedTempFile) -> Result<Vec<u8>, String> {
    let normalized = reader.check_path(path).map_err(|e| format!("{:?}", e))?;
    if normalized != file.path().to_string_lossy() {
        return Err(format!("文件不存在: {}", normalized));
    }
    let size = file.as_file().metadata().map_err(|e| e.to_string())?.len();
    reader.check_file_size(size).map_err(|e| format!("{:?}", e))?;
    let mut content = Vec::new();
    std::io::Read::read_to_end(&mut file.reopen().map_err(|e| e.to_string())?, &mut content)
        .map_err(|e| e.to_string())?;
    Ok(content)
}

#[test]
fn test_secure_file_reader() {
    let temp_dir = tempfile::tempdir().unwrap();
    let mut test_file = tempfile::Builder::new().prefix("test").suffix(".txt").tempfile_in(temp_dir.path()).unwrap();
    std::io::Write::write_all(&mut test_file, b"test content").unwrap();
    let test_path = test_file.path().to_string_lossy().to_string();

    let reader = SecureFileReader::new(vec![temp_dir.path().to_string_lossy().to_string()], 1024 * 1024);

    let content = read_checked(&reader, &test_path, &test_file).unwrap();
    assert_eq!(content, b"test content");

    let malicious_path = format!("{}/../../../etc/passwd", test_path);
    assert!(read_checked(&reader, &malicious_path, &test_file).is_err());

    // a file over the limit is refused
    let small = SecureFileReader::new(vec![temp_dir.path().to_string_lossy().to_string()], 4);
    assert!(matches!(
        small.check_file_size(12),
        Err(SecurityError::FileTooLarge { size: 12, limit: 4 })
    ));
    assert!(read_checked(&small, &test_path, &test_file).is_err());
}

#[test]
fn filtering_twice_changes_nothing() {
    let filter = SearchResultFilter::new();
    let results = vec![
        "/a/b.txt".to_string(),
        "/a/.ssh/key".to_string(),
        "/a/.hidden".to_string(),
        "/a/.gitignore".to_string(),
        "/A/CONFIG/x".to_string(),
    ];
    let once = filter.filter_results(results);
    assert_eq!(once, vec!["/a/b.txt".to_string(), "/a/.gitignore".to_string()]);
    assert_eq!(filter.filter_results(once.clone()), once);
}
