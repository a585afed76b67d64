use std::sync::Arc;

use hdfs_native::address::NameService;
use hdfs_native::error::HdfsError;
use hdfs_native::listing::{DirListingIterator, ListStatusIterator, ListStep};
use hdfs_native::mount::{MountLink, MountTable};
use hdfs_native::rpc::{DirectoryListing, ListingReply, Request, RpcCall};
use hdfs_native::status::{FileStatus, FileType, HdfsFileStatus};

fn table() -> MountTable {
    let service = |name: &str| Arc::new(NameService::new(name, None));
    MountTable {
        mounts: vec![MountLink::new("/dir/sub", "/mounted", service("other"))],
        fallback: MountLink::new("/", "/base", service("main")),
    }
}

fn entry(name: &str, isdir: bool) -> HdfsFileStatus {
    HdfsFileStatus {
        file_type: if isdir { FileType::IsDir } else { FileType::IsFile },
        path: name.as_bytes().to_vec(),
        length: 0,
        permission: 0o644,
        owner: "o".to_string(),
        group: "g".to_string(),
        modification_time: 0,
        access_time: 0,
        block_replication: None,
        blocksize: None,
        file_id: None,
        encrypted: false,
        extra: (),
    }
}

fn page(entries: Vec<HdfsFileStatus>, remaining_entries: u32) -> ListingReply {
    Ok(Some(DirectoryListing { partial_listing: entries, remaining_entries }))
}

fn asked(call: &RpcCall) -> (String, String, String) {
    match (&*call.protocol, &call.request) {
        (NameService::Named { name }, Request::GetListing { src, start_after, need_location }) => {
            assert!(!need_location);
            (name.clone(), src.clone(), String::from_utf8(start_after.clone()).unwrap())
        }
        other => panic!("{other:?}"),
    }
}

fn item_text(item: Result<FileStatus, HdfsError>) -> String {
    match item {
        Ok(status) => status.path,
        Err(e) => format!("{e:?}"),
    }
}

/// A name space whose directories are served two entries at a time.
fn serve(call: &RpcCall) -> ListingReply {
    let (service, src, start_after) = asked(call);
    let entries: Vec<(&str, bool)> = match (service.as_str(), src.as_str()) {
        ("main", "/base/dir") => {
            vec![("a", false), ("deep", true), ("gone", true), ("sub", true), ("z", false)]
        }
        ("main", "/base/dir/deep") => vec![("empty", true), ("x", false)],
        ("main", "/base/dir/deep/empty") => vec![],
        ("other", "/mounted") => vec![("m", false)],
        _ => return Ok(None),
    };
    let from = entries.iter().filter(|(name, _)| *name <= start_after.as_str()).count();
    let to = entries.len().min(from + 2);
    let listed = entries[from..to].iter().map(|(name, isdir)| entry(name, *isdir)).collect();
    page(listed, (entries.len() - to) as u32)
}

fn walk(mut iter: ListStatusIterator) -> Vec<String> {
    let mut items = Vec::new();
    loop {
        let mut step = iter.next();
        while let ListStep::Fetch(call) = step {
            step = iter.resume(serve(&call));
        }
        match step {
            ListStep::Item(Some(item)) => items.push(item_text(item)),
            ListStep::Item(None) => return items,
            ListStep::Fetch(_) => unreachable!(),
        }
    }
}

#[test]
fn a_walk_is_complete_and_ordered() {
    let iter = ListStatusIterator::new("/dir".to_string(), Arc::new(table()), true);
    assert_eq!(
        walk(iter),
        [
            "/dir/a",
            "/dir/deep",
            "/dir/deep/empty",
            "/dir/deep/x",
            "/dir/gone",
            "FileNotFound(\"/dir/gone\")",
            "/dir/sub",
            "/dir/sub/m",
            "/dir/z",
        ]
    );
}

#[test]
fn a_walk_that_is_not_recursive_stays_in_the_directory() {
    let iter = ListStatusIterator::new("/dir".to_string(), Arc::new(table()), false);
    assert_eq!(walk(iter), ["/dir/a", "/dir/deep", "/dir/gone", "/dir/sub", "/dir/z"]);
}

#[test]
fn a_walk_of_a_missing_directory() {
    let mut iter = ListStatusIterator::new("/nope".to_string(), Arc::new(table()), true);
    let call = match iter.next() {
        ListStep::Fetch(call) => call,
        other => panic!("{other:?}"),
    };
    assert_eq!(asked(&call), ("main".to_string(), "/base/nope".to_string(), String::new()));
    match iter.resume(Ok(None)) {
        ListStep::Item(Some(Err(HdfsError::FileNotFound(path)))) => assert_eq!(path, "/nope"),
        other => panic!("{other:?}"),
    }
    assert!(matches!(iter.next(), ListStep::Item(None)));
    assert!(matches!(iter.next(), ListStep::Item(None)));
}

#[test]
fn an_error_ends_its_directory_only() {
    let mut iter = ListStatusIterator::new("/dir".to_string(), Arc::new(table()), true);
    assert!(matches!(iter.next(), ListStep::Fetch(_)));
    let listed = vec![entry("d", true), entry("e", false)];
    assert!(matches!(iter.resume(page(listed, 0)), ListStep::Item(Some(Ok(_)))));
    match iter.next() {
        ListStep::Fetch(call) => assert_eq!(asked(&call).1, "/base/dir/d"),
        other => panic!("{other:?}"),
    }
    match iter.resume(Err(HdfsError::External("down".to_string()))) {
        ListStep::Item(Some(Err(e))) => assert_eq!(format!("{e:?}"), "External(\"down\")"),
        other => panic!("{other:?}"),
    }
    match iter.next() {
        ListStep::Item(Some(Ok(status))) => assert_eq!(status.path, "/dir/e"),
        other => panic!("{other:?}"),
    }
    assert!(matches!(iter.next(), ListStep::Item(None)));
}

#[test]
fn a_page_without_entries_ends_its_directory() {
    let mut iter = ListStatusIterator::new("/dir".to_string(), Arc::new(table()), false);
    assert!(matches!(iter.next(), ListStep::Fetch(_)));
    assert!(matches!(iter.resume(page(vec![], 3)), ListStep::Item(None)));
}

#[test]
fn an_exhausted_directory_gives_way_to_a_request_for_the_one_around_it() {
    let mut iter = ListStatusIterator::new("/dir".to_string(), Arc::new(table()), true);
    assert!(matches!(iter.next(), ListStep::Fetch(_)));
    assert!(matches!(iter.resume(page(vec![entry("d", true)], 1)), ListStep::Item(Some(Ok(_)))));
    assert!(matches!(iter.next(), ListStep::Fetch(_)));
    match iter.resume(page(vec![], 0)) {
        ListStep::Fetch(call) => assert_eq!(
            asked(&call),
            ("main".to_string(), "/base/dir".to_string(), "d".to_string())
        ),
        other => panic!("{other:?}"),
    }
}

#[test]
fn a_listing_asks_for_the_page_after_the_last_entry() {
    let mut iter = DirListingIterator::new("/dir".to_string(), &table(), false);
    match iter.next() {
        ListStep::Fetch(call) => assert_eq!(
            asked(&call),
            ("main".to_string(), "/base/dir".to_string(), String::new())
        ),
        other => panic!("{other:?}"),
    }
    let first = iter.resume(page(vec![entry("a", false), entry("b", false)], 1));
    assert_eq!(item_text(first.unwrap()), "/dir/a");
    match iter.next() {
        ListStep::Item(Some(item)) => assert_eq!(item_text(item), "/dir/b"),
        other => panic!("{other:?}"),
    }
    match iter.next() {
        ListStep::Fetch(call) => assert_eq!(asked(&call).2, "b"),
        other => panic!("{other:?}"),
    }
    let last = iter.resume(page(vec![entry("c", false)], 0));
    assert_eq!(item_text(last.unwrap()), "/dir/c");
    assert!(matches!(iter.next(), ListStep::Item(None)));
}

#[test]
fn a_listing_of_files_leaves_directories_out() {
    let mut iter = DirListingIterator::new("/dir".to_string(), &table(), true);
    let listed = vec![entry("a", true), entry("b", false), entry("c", true), entry("d", false)];
    assert!(iter.get_next_batch(page(listed, 0)).unwrap());
    for expected in ["/dir/b", "/dir/d"] {
        match iter.next() {
            ListStep::Item(Some(item)) => assert_eq!(item_text(item), expected),
            other => panic!("{other:?}"),
        }
    }
    assert!(matches!(iter.next(), ListStep::Item(None)));
}

#[test]
fn a_batch_of_directories_alone_holds_no_file() {
    let mut iter = DirListingIterator::new("/dir".to_string(), &table(), true);
    assert!(!iter.get_next_batch(page(vec![entry("a", true)], 1)).unwrap());
    match iter.next() {
        ListStep::Fetch(call) => assert_eq!(asked(&call).2, "a"),
        other => panic!("{other:?}"),
    }
}

#[test]
fn a_batch_that_could_not_be_fetched() {
    let mut iter = DirListingIterator::new("/dir".to_string(), &table(), false);
    match iter.get_next_batch(Ok(None)) {
        Err(HdfsError::FileNotFound(path)) => assert_eq!(path, "/dir"),
        other => panic!("{other:?}"),
    }
    assert!(matches!(iter.next(), ListStep::Fetch(_)));
    match iter.resume(Err(HdfsError::External("down".to_string()))) {
        Some(Err(HdfsError::External(m))) => assert_eq!(m, "down"),
        other => panic!("{other:?}"),
    }
    assert!(matches!(iter.next(), ListStep::Item(None)));
}

#[test]
fn a_listing_goes_to_the_mount_that_serves_it() {
    let mut iter = DirListingIterator::new("/dir/sub/x/".to_string(), &table(), false);
    match iter.next() {
        ListStep::Fetch(call) => assert_eq!(
            asked(&call),
            ("other".to_string(), "/mounted/x".to_string(), String::new())
        ),
        other => panic!("{other:?}"),
    }
}

#[test]
fn a_directory_is_listed_with_one_request_for_each_page() {
    let pages = [vec!["a", "b"], vec!["c"], vec![]];
    let mut asked_after = Vec::new();
    let mut found = Vec::new();
    let mut iter = DirListingIterator::new("/dir".to_string(), &table(), false);
    loop {
        let item = match iter.next() {
            ListStep::Fetch(call) => {
                let i = asked_after.len();
                asked_after.push(asked(&call).2);
                let listed = pages[i].iter().map(|name| entry(name, false)).collect();
                iter.resume(page(listed, (pages.len() - 1 - i) as u32))
            }
            ListStep::Item(item) => item,
        };
        match item {
            Some(item) => found.push(item_text(item)),
            None => break,
        }
    }
    assert_eq!(asked_after, ["", "b", "c"]);
    assert_eq!(found, ["/dir/a", "/dir/b", "/dir/c"]);
}

#[test]
fn the_end_of_a_walk_is_final() {
    let mut iter = ListStatusIterator::new("/dir".to_string(), Arc::new(table()), true);
    assert!(matches!(iter.next(), ListStep::Fetch(_)));
    assert!(matches!(iter.resume(page(vec![], 0)), ListStep::Item(None)));
    for _ in 0..3 {
        assert!(matches!(iter.next(), ListStep::Item(None)));
    }
}

#[test]
fn a_walk_goes_by_the_order_of_the_table_that_it_is_given() {
    let service = |name: &str| Arc::new(NameService::new(name, None));
    let table = MountTable {
        mounts: vec![
            MountLink::new("/a", "/shallow", service("one")),
            MountLink::new("/a/b", "/deep", service("two")),
        ],
        fallback: MountLink::new("/", "/", service("main")),
    };
    let mut iter = ListStatusIterator::new("/a/b".to_string(), Arc::new(table), true);
    match iter.next() {
        ListStep::Fetch(call) => assert_eq!(
            asked(&call),
            ("one".to_string(), "/shallow/b".to_string(), String::new())
        ),
        other => panic!("{other:?}"),
    }
}
