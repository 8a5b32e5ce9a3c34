use wdic_gateway::directory::{DirectoryEntry, DirectoryIndex, MountTable};
use wdic_gateway::tokens::{answer_directory_search, answer_file_request, encode_file_data, UdpToken};

fn entry(path: &str) -> DirectoryEntry {
    DirectoryEntry { path: path.to_string(), size: 100, is_dir: false, modified: 0 }
}

#[test]
fn test_directory_index_search() {
    let index = DirectoryIndex {
        root_path: "/test".to_string(),
        entries: vec![
            DirectoryEntry {
                path: "/test/file1.txt".to_string(),
                size: 100,
                is_dir: false,
                modified: wdic_gateway::runtime::now_nanos(),
            },
            DirectoryEntry {
                path: "/test/document.pdf".to_string(),
                size: 200,
                is_dir: false,
                modified: wdic_gateway::runtime::now_nanos(),
            },
        ],
        generated_at: wdic_gateway::runtime::now_nanos(),
    };

    let results = index.search(&["txt".to_string()]);
    assert_eq!(results.len(), 1);
    assert!(results[0].contains("file1.txt"));

    let results = index.search(&["test".to_string()]);
    assert_eq!(results.len(), 2);
}

#[test]
fn search_ignores_case_and_needs_one_keyword() {
    let index = DirectoryIndex {
        root_path: "/r".to_string(),
        entries: vec![entry("/r/README.md"), entry("/r/src/Main.RS"), entry("/r/notes")],
        generated_at: 0,
    };
    assert_eq!(index.search(&["readme".to_string()]), vec!["/r/README.md".to_string()]);
    assert_eq!(
        index.search(&["xyz".to_string(), "MAIN".to_string()]),
        vec!["/r/src/Main.RS".to_string()]
    );
    assert!(index.search(&[]).is_empty());
    assert_eq!(index.search(&["".to_string()]).len(), 3);
}

#[test]
fn mount_table_mounts_replaces_searches_and_unmounts() {
    let mut mounts = MountTable::new();
    mounts.mount(
        "a".to_string(),
        DirectoryIndex { root_path: "/a".to_string(), entries: vec![entry("/a/x.rs")], generated_at: 0 },
    );
    mounts.mount(
        "b".to_string(),
        DirectoryIndex { root_path: "/b".to_string(), entries: vec![entry("/b/y.rs")], generated_at: 0 },
    );
    assert_eq!(mounts.get_mounted_directories(), vec!["a".to_string(), "b".to_string()]);
    assert_eq!(
        mounts.search_files(&["rs".to_string()]),
        vec!["/a/x.rs".to_string(), "/b/y.rs".to_string()]
    );
    // mounting again under a known name replaces the index in place
    mounts.mount(
        "a".to_string(),
        DirectoryIndex { root_path: "/a2".to_string(), entries: vec![entry("/a2/z.rs")], generated_at: 0 },
    );
    assert_eq!(mounts.get_mounted_directories(), vec!["a".to_string(), "b".to_string()]);
    assert_eq!(
        mounts.search_files(&["rs".to_string()]),
        vec!["/a2/z.rs".to_string(), "/b/y.rs".to_string()]
    );
    assert!(mounts.unmount("a"));
    assert!(!mounts.unmount("a"));
    assert_eq!(mounts.get_mounted_directories(), vec!["b".to_string()]);
    mounts.clear();
    assert!(mounts.get_mounted_directories().is_empty());
}

#[test]
fn answers_to_requests() {
    let mut mounts = MountTable::new();
    mounts.mount(
        "a".to_string(),
        DirectoryIndex { root_path: "/a".to_string(), entries: vec![entry("/a/x.rs")], generated_at: 0 },
    );
    match answer_directory_search(5, &mounts, 9, &["X.RS".to_string()]) {
        UdpToken::DirectorySearchResponse { responder_id, search_id, matches } => {
            assert_eq!(responder_id, 5);
            assert_eq!(search_id, 9);
            assert_eq!(matches, vec!["/a/x.rs".to_string()]);
        }
        other => panic!("unexpected token: {:?}", other),
    }
    match answer_file_request(5, 11, Ok(b"test content".to_vec())) {
        UdpToken::FileResponse { responder_id, request_id, file_data, error } => {
            assert_eq!(responder_id, 5);
            assert_eq!(request_id, 11);
            assert_eq!(file_data, Some("dGVzdCBjb250ZW50".to_string()));
            assert_eq!(error, None);
        }
        other => panic!("unexpected token: {:?}", other),
    }
    match answer_file_request(5, 12, Err("读取文件失败".to_string())) {
        UdpToken::FileResponse { file_data, error, .. } => {
            assert_eq!(file_data, None);
            assert_eq!(error, Some("读取文件失败".to_string()));
        }
        other => panic!("unexpected token: {:?}", other),
    }
    assert_eq!(encode_file_data(b"ab"), "YWI=");
    assert_eq!(encode_file_data(b""), "");
}

#[test]
fn base64_groups_and_padding() {
    assert_eq!(encode_file_data(b"Man\xff"), "TWFu/w==");
    assert_eq!(encode_file_data(&[251, 255, 0]), "+/8A");
    assert_eq!(encode_file_data(b"a"), "YQ==");
}
