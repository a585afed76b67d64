use std::path::{Path, PathBuf};
use std::sync::Arc;

use hdfs_native::address::NameService;
use hdfs_native::mount::{MountLink, MountTable};
use hdfs_native::viewfs::order_mounts;
use url::Url;

fn create_protocol(url: &str) -> Arc<NameService> {
    let url = Url::parse(url).unwrap();
    Arc::new(NameService::new(url.host_str().unwrap(), url.port()))
}

fn link(viewfs_path: &str, hdfs_path: &str) -> MountLink {
    MountLink::new(viewfs_path, hdfs_path, create_protocol("hdfs://127.0.0.1:9000"))
}

#[test]
fn test_mount_link_resolve() {
    let protocol = create_protocol("hdfs://127.0.0.1:9000");
    let link = MountLink::new("/view", "/hdfs", protocol);

    assert_eq!(
        PathBuf::from(link.resolve("/view/dir/file").unwrap()),
        PathBuf::from("/hdfs/dir/file")
    );
    assert_eq!(PathBuf::from(link.resolve("/view").unwrap()), PathBuf::from("/hdfs"));
    assert!(link.resolve("/hdfs/path").is_none());
}

#[test]
fn test_fallback_link() {
    let protocol = create_protocol("hdfs://127.0.0.1:9000");
    let link = MountLink::new("", "/hdfs", protocol);

    assert_eq!(
        PathBuf::from(link.resolve("/path/to/file").unwrap()),
        PathBuf::from("/hdfs/path/to/file")
    );
    assert_eq!(PathBuf::from(link.resolve("/").unwrap()), PathBuf::from("/hdfs"));
    assert_eq!(
        PathBuf::from(link.resolve("/hdfs/path").unwrap()),
        PathBuf::from("/hdfs/hdfs/path")
    );
}

#[test]
fn test_mount_table_resolve() {
    let link1 = MountLink::new(
        "/mount1",
        "/path1/nested",
        create_protocol("hdfs://127.0.0.1:9000"),
    );
    let link2 = MountLink::new(
        "/mount2",
        "/path2",
        create_protocol("hdfs://127.0.0.1:9001"),
    );
    let link3 = MountLink::new(
        "/mount3/nested",
        "/path3",
        create_protocol("hdfs://127.0.0.1:9002"),
    );
    let fallback = MountLink::new("/", "/path4", create_protocol("hdfs://127.0.0.1:9003"));

    let mount_table = MountTable {
        mounts: vec![link1, link2, link3],
        fallback,
    };

    // Exact mount path resolves to the exact HDFS path
    let (link, resolved) = mount_table.resolve("/mount1");
    assert_eq!(Path::new(&link.viewfs_path), Path::new("/mount1"));
    assert_eq!(resolved, "/path1/nested");

    // Trailing slash is treated the same
    let (link, resolved) = mount_table.resolve("/mount1/");
    assert_eq!(Path::new(&link.viewfs_path), Path::new("/mount1"));
    assert_eq!(resolved, "/path1/nested");

    // Doesn't do partial matches on a directory name
    let (link, resolved) = mount_table.resolve("/mount12");
    assert_eq!(Path::new(&link.viewfs_path), Path::new("/"));
    assert_eq!(resolved, "/path4/mount12");

    let (link, resolved) = mount_table.resolve("/mount3/file");
    assert_eq!(Path::new(&link.viewfs_path), Path::new("/"));
    assert_eq!(resolved, "/path4/mount3/file");

    let (link, resolved) = mount_table.resolve("/mount3/nested/file");
    assert_eq!(Path::new(&link.viewfs_path), Path::new("/mount3/nested"));
    assert_eq!(resolved, "/path3/file");
}

#[test]
fn empty_paths_are_mounted_at_the_root() {
    let link = link("", "");
    assert_eq!(link.viewfs_path, "/");
    assert_eq!(link.hdfs_path, "/");
    assert_eq!(link.resolve("/a/b").unwrap(), "/a/b");
    assert!(link.resolve("a/b").is_none());
    assert!(link.resolve("").is_none());
}

#[test]
fn a_link_holds_the_name_service_that_it_was_given() {
    let protocol = create_protocol("hdfs://127.0.0.1:9000");
    let link = MountLink::new("/view", "/hdfs", Arc::clone(&protocol));
    assert!(Arc::ptr_eq(&link.protocol, &protocol));
}

#[test]
fn a_clone_shares_the_name_service() {
    let link = link("/view", "/hdfs");
    let copy = link.clone();
    assert_eq!(copy.viewfs_path, "/view");
    assert_eq!(copy.hdfs_path, "/hdfs");
    assert!(Arc::ptr_eq(&copy.protocol, &link.protocol));
}

#[test]
fn what_lies_below_the_mount_point_is_kept_as_spelled() {
    let link = link("/view", "/hdfs/");
    assert_eq!(link.resolve("//view/./a//b/./c/.//").unwrap(), "/hdfs/a//b/./c");
    assert_eq!(link.resolve("/view/../x").unwrap(), "/hdfs/../x");
    assert_eq!(link.resolve("/view/.").unwrap(), "/hdfs/");
}

#[test]
fn a_mount_point_resolves_to_its_place_however_it_is_spelled() {
    let link = link("/view/dir", "/hdfs");
    for path in ["/view/dir", "/view/dir/", "//view///dir", "/./view/./dir/."] {
        assert_eq!(link.resolve(path).unwrap(), "/hdfs");
    }
}

#[test]
fn links_resolve_as_std_paths_do() {
    let bases = ["/", "/a", "/a/b", "//a/", "a", "./a", ".", "/a/./b", "..", "/b"];
    let paths = [
        "", "/", "//", ".", "..", "a", "./a", "a/b", "/a", "/a/", "/a/b", "/a/b/c", "/a//b/c/",
        "/ab", "/a/./b/./c/.", "/a/../b", "./a/b/", "/b/a", "/é/ü", "/a/é//ü/",
    ];
    for base in bases {
        for place in ["/", "/hdfs", "/hdfs/", "hdfs"] {
            let link = link(base, place);
            for path in paths {
                let expected = match Path::new(path).strip_prefix(base) {
                    Ok(rest) if rest.components().count() == 0 => Some(place.to_string()),
                    Ok(rest) => {
                        Some(Path::new(place).join(rest).to_str().unwrap().to_string())
                    }
                    Err(_) => None,
                };
                assert_eq!(link.resolve(path), expected, "{path:?} under {base:?} at {place:?}");
                assert_eq!(link.serves_path(path), expected.is_some());
            }
        }
    }
}

#[test]
fn the_fallback_serves_only_what_no_mount_serves() {
    let table = MountTable {
        mounts: vec![link("/a/b", "/one"), link("/a", "/two")],
        fallback: link("/", "/three"),
    };
    assert_eq!(table.resolve("/a/b/c").1, "/one/c");
    assert_eq!(table.resolve("/a/c").1, "/two/c");
    assert_eq!(table.resolve("/c").1, "/three/c");
    assert_eq!(table.resolve("/").1, "/three");
}

#[test]
fn coverage_of_paths() {
    let table = MountTable {
        mounts: vec![link("a/b", "/one")],
        fallback: link("/", "/two"),
    };
    assert!(table.covers_path("/x"));
    assert!(table.covers_path("a/b/c"));
    assert!(!table.covers_path("a/c"));
    assert!(!table.covers_path(""));
    assert_eq!(table.resolve("a/b/c").1, "/one/c");
}

#[test]
fn mounts_are_ordered_from_deepest_to_shallowest_and_later_first() {
    let configured = ["/a", "/b/c", "/", "/d", "/e/f/", "/g/h/i", "//b/./c"];
    let ordered = order_mounts(configured.iter().map(|p| link(p, "/")).collect());
    let got: Vec<&str> = ordered.iter().map(|l| l.viewfs_path.as_str()).collect();
    assert_eq!(got, ["/g/h/i", "//b/./c", "/e/f/", "/b/c", "/d", "/a", "/"]);

    let mut expected = configured.to_vec();
    expected.sort_by_key(|p| Path::new(p).components().count());
    expected.reverse();
    assert_eq!(got, expected);
}

#[test]
fn configured_order_of_distinct_mount_points_does_not_matter() {
    let one = order_mounts(vec![link("/a", "/1"), link("/b", "/2"), link("/a/b", "/3")]);
    let other = order_mounts(vec![link("/a/b", "/3"), link("/b", "/2"), link("/a", "/1")]);
    let one = MountTable { mounts: one, fallback: link("/", "/4") };
    let other = MountTable { mounts: other, fallback: link("/", "/4") };
    for path in ["/", "/a", "/a/b", "/a/b/c", "/a/c", "/b/x", "/c", "/ab"] {
        assert_eq!(one.resolve(path).1, other.resolve(path).1);
    }
    assert_eq!(one.resolve("/a/b/c").1, "/3/c");
}

#[test]
fn of_two_links_at_one_mount_point_the_later_one_serves() {
    let table = MountTable {
        mounts: order_mounts(vec![link("/a", "/1"), link("/a/", "/2")]),
        fallback: link("/", "/3"),
    };
    assert_eq!(table.resolve("/a/x").1, "/2/x");
}

#[test]
fn one_mount_point_is_one_link() {
    let table = MountTable {
        mounts: order_mounts(vec![link("/a", "/1"), link("/b", "/1")]),
        fallback: link("/", "/"),
    };
    let (x, _) = table.resolve("/a/x");
    let (y, _) = table.resolve("/a/y/z");
    let (z, _) = table.resolve("/b/x");
    assert!(std::ptr::eq(x, y));
    assert!(!std::ptr::eq(x, z));
}

#[test]
fn absolute_places_resolve_to_absolute_paths() {
    let link = link("/a", "/hdfs");
    for path in ["/a", "/a/b", "/a/../..", "/a//b"] {
        assert!(link.resolve(path).unwrap().starts_with('/'));
    }
}
