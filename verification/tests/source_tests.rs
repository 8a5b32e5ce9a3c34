use wdic_gateway::address::GatewayAddr;
use wdic_gateway::directory::{DirectoryEntry, DirectoryIndex, MountTable};
use wdic_gateway::sources::{nearest_sources, plan_file_requests};
use wdic_gateway::tokens::{
    directory_search, file_request, handle_udp_token, info_message, performance_probe, TokenAction, UdpToken,
};

fn addr(port: u16) -> GatewayAddr {
    GatewayAddr::v4(10, 0, 0, 1, port)
}

#[test]
fn nearest_sources_sorts_stably_and_keeps_at_most_max() {
    assert_eq!(nearest_sources(&vec![30, 10, 20, 10], 3), vec![1, 3, 2]);
    assert_eq!(nearest_sources(&vec![5, 5, 5], 2), vec![0, 1]);
    assert_eq!(nearest_sources(&vec![7, 1], 5), vec![1, 0]);
    assert!(nearest_sources(&vec![], 3).is_empty());
    assert!(nearest_sources(&vec![1, 2], 0).is_empty());
}

#[test]
fn file_requests_go_to_the_three_nearest_sources() {
    let sources = vec![addr(1), addr(2), addr(3), addr(4), addr(5)];
    let distances = vec![Some(40), None, Some(5), Some(40), Some(12)];
    let plan = plan_file_requests(99, "abc123", &sources, &distances);
    let targets: Vec<GatewayAddr> = plan.iter().map(|(a, _)| *a).collect();
    assert_eq!(targets, vec![addr(3), addr(5), addr(1)]);
    for (_, token) in &plan {
        match token {
            UdpToken::FileRequest { requester_id, file_path, .. } => {
                assert_eq!(*requester_id, 99);
                assert_eq!(file_path, "abc123");
            }
            other => panic!("unexpected token {:?}", other),
        }
    }
    // an unmeasured source still counts, as the farthest
    let plan = plan_file_requests(1, "h", &vec![addr(1), addr(2)], &vec![None, Some(3)]);
    let targets: Vec<GatewayAddr> = plan.iter().map(|(a, _)| *a).collect();
    assert_eq!(targets, vec![addr(2), addr(1)]);
    assert!(plan_file_requests(1, "h", &vec![], &vec![]).is_empty());
}

#[test]
fn token_constructors_fill_their_fields() {
    match info_message(7, "hello".to_string()) {
        UdpToken::InfoMessage { sender_id, content, .. } => {
            assert_eq!(sender_id, 7);
            assert_eq!(content, "hello");
        }
        other => panic!("unexpected token {:?}", other),
    }
    match directory_search(8, vec!["a".to_string()]) {
        UdpToken::DirectorySearch { searcher_id, keywords, .. } => {
            assert_eq!(searcher_id, 8);
            assert_eq!(keywords, vec!["a".to_string()]);
        }
        other => panic!("unexpected token {:?}", other),
    }
    match file_request(9, "/x".to_string()) {
        UdpToken::FileRequest { requester_id, file_path, request_id } => {
            assert_eq!(requester_id, 9);
            assert_eq!(file_path, "/x");
            // a version-4 UUID
            assert_eq!((request_id >> 76) & 0xf, 4);
            assert_eq!((request_id >> 62) & 0x3, 2);
        }
        other => panic!("unexpected token {:?}", other),
    }
    match performance_probe(3, "latency".to_string(), 64) {
        UdpToken::PerformanceTest { tester_id, test_type, data_size, .. } => {
            assert_eq!(tester_id, 3);
            assert_eq!(test_type, "latency");
            assert_eq!(data_size, 64);
        }
        other => panic!("unexpected token {:?}", other),
    }
}

#[test]
fn incoming_tokens_are_answered_or_recorded() {
    let mut mounts = MountTable::new();
    mounts.mount(
        "docs".to_string(),
        DirectoryIndex {
            root_path: "/docs".to_string(),
            entries: vec![DirectoryEntry { path: "/docs/plan.txt".to_string(), size: 1, is_dir: false, modified: 0 }],
            generated_at: 0,
        },
    );
    let search = UdpToken::DirectorySearch { searcher_id: 2, keywords: vec!["PLAN".to_string()], search_id: 77 };
    match handle_udp_token(1, &mounts, search) {
        TokenAction::Reply(UdpToken::DirectorySearchResponse { responder_id, search_id, matches }) => {
            assert_eq!(responder_id, 1);
            assert_eq!(search_id, 77);
            assert_eq!(matches, vec!["/docs/plan.txt".to_string()]);
        }
        other => panic!("unexpected action {:?}", other),
    }
    let request = UdpToken::FileRequest { requester_id: 2, file_path: "/docs/plan.txt".to_string(), request_id: 5 };
    match handle_udp_token(1, &mounts, request) {
        TokenAction::ReadFile { request_id, file_path } => {
            assert_eq!(request_id, 5);
            assert_eq!(file_path, "/docs/plan.txt");
        }
        other => panic!("unexpected action {:?}", other),
    }
    let info = UdpToken::InfoMessage { sender_id: 2, content: "hi".to_string(), message_id: 3 };
    assert!(matches!(handle_udp_token(1, &mounts, info), TokenAction::Record));
}
