use std::path::PathBuf;

use hdfs_native::status::{
    ContentSummary, ContentSummaryProto, FileStatus, FileType, HdfsFileStatus,
};

fn entry(name: &[u8]) -> HdfsFileStatus {
    HdfsFileStatus {
        file_type: FileType::IsFile,
        path: name.to_vec(),
        length: 17,
        permission: 0o644,
        owner: "hdfs".to_string(),
        group: "supergroup".to_string(),
        modification_time: 5,
        access_time: 6,
        block_replication: Some(3),
        blocksize: Some(1024),
        file_id: Some(9),
        encrypted: false,
        extra: (),
    }
}

#[test]
fn the_name_is_joined_onto_the_directory() {
    assert_eq!(FileStatus::from(entry(b"file"), "/dir").path, "/dir/file");
    assert_eq!(FileStatus::from(entry(b"file"), "/dir/").path, "/dir/file");
    assert_eq!(FileStatus::from(entry(b"file"), "/").path, "/file");
    assert_eq!(FileStatus::from(entry("ü".as_bytes()), "/é").path, "/é/ü");
}

#[test]
fn an_empty_name_stands_for_the_path_itself() {
    assert_eq!(FileStatus::from(entry(b""), "/dir/file").path, "/dir/file");
    assert_eq!(FileStatus::from(entry(b""), "/dir/").path, "/dir/");
}

#[test]
fn a_name_that_is_no_text_is_left_out() {
    assert_eq!(FileStatus::from(entry(&[0xff, 0xfe]), "/dir").path, "/dir");
    assert_eq!(FileStatus::from(entry(&[b'a', 0xc3]), "/dir").path, "/dir");
    assert_eq!(FileStatus::from(entry(&[0xed, 0xa0, 0x80]), "/dir").path, "/dir");
    assert_eq!(FileStatus::from(entry(&[0xc0, 0x80]), "/dir").path, "/dir");
}

#[test]
fn an_absolute_name_replaces_the_path() {
    assert_eq!(FileStatus::from(entry(b"/other"), "/dir").path, "/other");
}

#[test]
fn entry_paths_are_those_of_std() {
    let names: [&[u8]; 7] = [b"", b"a", b"a/b", b"/a", b"\xf0\x9f\x93\x81", b"\xf0\x9f", b"."];
    for base in ["", "/", "/dir", "/dir/", "dir"] {
        for name in names {
            let mut expected = PathBuf::from(base);
            if let Ok(text) = std::str::from_utf8(name) {
                if !text.is_empty() {
                    expected.push(text);
                }
            }
            assert_eq!(FileStatus::from(entry(name), base).path, expected.to_str().unwrap());
        }
    }
}

#[test]
fn the_other_fields_are_copied() {
    let status = FileStatus::from(entry(b"file"), "/dir");
    assert_eq!(status.length, 17);
    assert!(!status.isdir);
    assert_eq!(status.permission, 0o644);
    assert_eq!(status.owner, "hdfs");
    assert_eq!(status.group, "supergroup");
    assert_eq!(status.modification_time, 5);
    assert_eq!(status.access_time, 6);
    assert_eq!(status.replication, Some(3));
    assert_eq!(status.blocksize, Some(1024));
}

#[test]
fn only_directories_are_directories() {
    for (file_type, isdir) in [
        (FileType::IsDir, true),
        (FileType::IsFile, false),
        (FileType::IsSymlink, false),
    ] {
        let status = FileStatus::from(HdfsFileStatus { file_type, ..entry(b"x") }, "/");
        assert_eq!(status.isdir, isdir);
    }
}

#[test]
fn the_low_bits_of_the_permission_are_kept() {
    for bits in [0o1777, 0xffff, 0x1_0000, 0xabcd_1234, u32::MAX] {
        let status = FileStatus::from(HdfsFileStatus { permission: bits, ..entry(b"x") }, "/");
        assert_eq!(status.permission, bits as u16);
    }
    let status = FileStatus::from(HdfsFileStatus { permission: 0xabcd_1234, ..entry(b"x") }, "/");
    assert_eq!(status.permission, 0x1234);
}

#[test]
fn a_long_file_keeps_its_length() {
    let status = FileStatus::from(HdfsFileStatus { length: u64::MAX, ..entry(b"x") }, "/");
    assert_eq!(status.length, u64::MAX as usize);
}

#[test]
fn content_summary_keeps_every_field() {
    let summary = ContentSummary::from(ContentSummaryProto {
        length: 1,
        file_count: 2,
        directory_count: 3,
        quota: 4,
        space_consumed: 5,
        space_quota: 6,
    });
    assert_eq!(
        summary,
        ContentSummary {
            length: 1,
            file_count: 2,
            directory_count: 3,
            quota: 4,
            space_consumed: 5,
            space_quota: 6,
        }
    );
}
