use bucket_sync::builder::{apply_page, build_from_pages, ListResult, Page};
use bucket_sync::errors::BackupError;
use bucket_sync::index::RemoteIndex;
use bucket_sync::path_codec::normalize;

fn page(keys: &[&str], has_more: bool) -> Page {
    Page {
        keys: keys.iter().map(|s| s.to_string()).collect(),
        next_cursor: if has_more { Some("token".to_string()) } else { None },
        has_more,
    }
}

#[test]
fn pagination_stops_on_last_page() {
    let responses = vec![
        ListResult::Page(page(&["a/x.txt", "a/y.txt"], true)),
        ListResult::Page(page(&["b/z.txt"], true)),
        ListResult::Page(page(&["c/w.txt"], false)),
    ];
    let (index, requests) = build_from_pages(&responses).unwrap();
    assert_eq!(requests, 3);
    assert_eq!(index.len(), 4);
    assert!(index.contains(&normalize("a/x.txt")));
    assert!(index.contains(&normalize("a/y.txt")));
    assert!(index.contains(&normalize("b/z.txt")));
    assert!(index.contains(&normalize("c/w.txt")));
    assert!(!index.contains(&normalize("d/unseen.txt")));
}

#[test]
fn pagination_single_page() {
    let responses = vec![ListResult::Page(page(&["only.txt"], false))];
    let (index, requests) = build_from_pages(&responses).unwrap();
    assert_eq!(requests, 1);
    assert_eq!(index.len(), 1);
    assert!(index.contains(&normalize("only.txt")));
}

#[test]
fn pagination_ignores_responses_after_the_first_terminal_one() {
    let responses = vec![
        ListResult::Page(page(&["seen.txt"], false)),
        ListResult::Page(page(&["never-requested.txt"], false)),
    ];
    let (index, requests) = build_from_pages(&responses).unwrap();
    assert_eq!(requests, 1);
    assert_eq!(index.len(), 1);
    assert!(!index.contains(&normalize("never-requested.txt")));
}

#[test]
fn pagination_coalesces_duplicates() {
    let responses = vec![
        ListResult::Page(page(&["a/x.txt", "a\\x.txt"], true)),
        ListResult::Page(page(&["a/x.txt", "b/y.txt"], false)),
    ];
    let (index, requests) = build_from_pages(&responses).unwrap();
    assert_eq!(requests, 2);
    assert_eq!(index.len(), 2);
}

#[test]
fn listing_failure_is_fatal() {
    let responses = vec![
        ListResult::Page(page(&["a/x.txt"], true)),
        ListResult::Failed,
        ListResult::Page(page(&["b/y.txt"], false)),
    ];
    assert!(matches!(
        build_from_pages(&responses),
        Err(BackupError::FileFetchFailed)
    ));
}

#[test]
fn apply_page_normalizes_and_inserts() {
    let mut index = RemoteIndex::new();
    apply_page(&mut index, &page(&["a\\b\\c.txt", "a/b/c.txt", "d.txt"], true));
    assert_eq!(index.len(), 2);
    assert!(index.contains(&normalize("a/b/c.txt")));
    assert!(index.contains(&normalize("d.txt")));
}
