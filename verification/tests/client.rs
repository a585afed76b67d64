use std::sync::Arc;

use hdfs_native::address::{NameService, UrlParts};
use hdfs_native::config::{Configuration, ConfiguredLink, ConfiguredTable};
use hdfs_native::error::UrlError;
use hdfs_native::open::{
    AppendAttempt, AppendResponse, AppendStep, CreateStep, LocatedBlock, LocatedFile,
};
use hdfs_native::rpc::{Request, RpcCall};
use hdfs_native::status::{ContentSummaryProto, FileStatus, FileType, HdfsFileStatus};
use hdfs_native::viewfs::MountTableBuilder;
use hdfs_native::{Client, HdfsError, WriteOptions};
use url::Url;

fn configuration(default_fs: Option<&str>, links: &[(Option<&str>, &str)]) -> Configuration {
    Configuration {
        default_fs: default_fs.map(|s| s.to_string()),
        mount_tables: vec![
            ConfiguredTable { name: "other".to_string(), links: Vec::new() },
            ConfiguredTable {
                name: "cluster".to_string(),
                links: links
                    .iter()
                    .map(|(path, url)| ConfiguredLink {
                        viewfs_path: path.map(|p| p.to_string()),
                        hdfs_url: url.to_string(),
                    })
                    .collect(),
            },
        ],
    }
}

fn client_at(url: &str) -> Client {
    Client::new(url, Ok(configuration(None, &[]))).unwrap()
}

fn viewfs(links: &[(Option<&str>, &str)]) -> Result<Client, HdfsError> {
    Client::new("viewfs://cluster", Ok(configuration(None, links)))
}

fn mounted() -> Client {
    viewfs(&[
        (Some("/data"), "hdfs://one:9000/warehouse"),
        (None, "hdfs://fallback/base"),
        (Some("/data/raw"), "hdfs://two/"),
    ])
    .unwrap()
}

fn debug<T: std::fmt::Debug>(value: T) -> String {
    format!("{value:?}")
}

fn shown(call: &RpcCall) -> (String, String) {
    let service = match &*call.protocol {
        NameService::NameNode { host, port } => format!("{host}:{port}"),
        NameService::Named { name } => name.clone(),
    };
    (service, debug(&call.request))
}

fn error_of<T>(res: Result<T, HdfsError>) -> String {
    match res {
        Ok(_) => panic!("no error"),
        Err(e) => debug(e),
    }
}

fn file(file_type: FileType, encrypted: bool) -> HdfsFileStatus<&'static str> {
    HdfsFileStatus {
        file_type,
        path: Vec::new(),
        length: 1,
        permission: 0o644,
        owner: "o".to_string(),
        group: "g".to_string(),
        modification_time: 0,
        access_time: 0,
        block_replication: None,
        blocksize: None,
        file_id: Some(42),
        encrypted,
        extra: "RS-6-3-1024k",
    }
}

#[test]
fn a_port_means_a_single_namenode() {
    let call = client_at("hdfs://namenode:9000").get_file_info("/a");
    assert_eq!(
        debug(&call.protocol),
        "NameNode { host: \"namenode\", port: 9000 }"
    );
    let call = client_at("hdfs://nameservice").get_file_info("/a");
    assert_eq!(debug(&call.protocol), "Named { name: \"nameservice\" }");
}

#[test]
fn the_url_is_taken_apart_as_the_url_crate_does() {
    for text in ["hdfs://Host:8020/x/../y?z", "hdfs://[::1]:9/", "hdfs://user@h", "hdfs://a%41"] {
        let url = Url::parse(text).unwrap();
        let expected = NameService::new(url.host_str().unwrap(), url.port());
        let call = client_at(text).get_file_info("/a");
        assert_eq!(debug(&call.protocol), debug(expected));
    }
}

#[test]
fn a_text_that_is_no_url_is_refused_for_the_reason_of_the_url_crate() {
    let cases = [
        ("hdfs://:9000", UrlError::EmptyHost),
        ("http://", UrlError::EmptyHost),
        ("http://xn--0.pt", UrlError::IdnaError),
        ("hdfs://host:99999", UrlError::InvalidPort),
        ("http://1.2.3.256", UrlError::InvalidIpv4Address),
        ("hdfs://[::1", UrlError::InvalidIpv6Address),
        ("hdfs://a b/", UrlError::InvalidDomainCharacter),
        ("/path", UrlError::RelativeUrlWithoutBase),
        ("", UrlError::RelativeUrlWithoutBase),
    ];
    for (text, reason) in cases {
        assert_eq!(debug(reason), debug(Url::parse(text).unwrap_err()), "{text:?}");
        for res in [
            Client::new(text, Ok(configuration(None, &[]))),
            Client::new_with_config(text, Ok(configuration(None, &[]))),
            Client::default_with_config(Ok(configuration(Some(text), &[]))),
            viewfs(&[(None, text)]),
        ] {
            assert_eq!(error_of(res), format!("UrlParseError({reason:?})"));
        }
    }
}

#[test]
fn the_parts_of_a_url() {
    let parts = UrlParts::parse("hdfs://Host:8020/x/../y?z").unwrap();
    assert_eq!(parts.scheme, "hdfs");
    assert_eq!(parts.host.as_deref(), Some("Host"));
    assert_eq!(parts.port, Some(8020));
    assert_eq!(parts.path, "/y");
    let parts = UrlParts::parse("hdfs:///x").unwrap();
    assert_eq!((parts.host, parts.port), (None, None));
    assert_eq!(
        error_of(UrlParts::parse("/x")),
        "UrlParseError(RelativeUrlWithoutBase)"
    );
}

#[test]
fn a_url_needs_a_host() {
    let expected = "InvalidArgument(\"URL must contain a host\")";
    for url in ["hdfs:/path", "hdfs:///path", "viewfs:///", "localhost:9000", "file:///tmp"] {
        assert_eq!(error_of(Client::new(url, Ok(configuration(None, &[])))), expected);
    }
    assert_eq!(error_of(viewfs(&[(None, "hdfs:///path")])), expected);
}

#[test]
fn other_schemes_are_refused() {
    assert_eq!(
        error_of(Client::new("s3://bucket", Ok(configuration(None, &[])))),
        "InvalidArgument(\"Only `hdfs` and `viewfs` schemes are supported\")"
    );
    assert_eq!(
        error_of(viewfs(&[(None, "viewfs://cluster/")])),
        "InvalidArgument(\"Only hdfs mounts are supported for viewfs\")"
    );
}

#[test]
fn a_configuration_that_did_not_load_is_reported_after_the_url() {
    let failed = || Err(HdfsError::External("no file".to_string()));
    assert_eq!(error_of(Client::new("hdfs://a", failed())), "External(\"no file\")");
    assert_eq!(error_of(Client::new("nope", failed())), "UrlParseError(RelativeUrlWithoutBase)");
    assert_eq!(error_of(Client::default_with_config(failed())), "External(\"no file\")");
}

#[test]
fn the_default_file_system() {
    let client = Client::default_with_config(Ok(configuration(Some("hdfs://ns"), &[]))).unwrap();
    let (service, _) = shown(&client.get_file_info("/a"));
    assert_eq!(service, "ns");
    assert_eq!(
        error_of(Client::default_with_config(Ok(configuration(None, &[])))),
        "InvalidArgument(\"No fs.defaultFS setting found\")"
    );
}

#[test]
fn a_viewfs_needs_exactly_one_fallback() {
    let none = "InvalidArgument(\"No viewfs fallback mount found\")";
    assert_eq!(error_of(viewfs(&[])), none);
    assert_eq!(error_of(viewfs(&[(Some("/a"), "hdfs://x")])), none);
    assert_eq!(
        error_of(Client::new(
            "viewfs://unknown",
            Ok(configuration(None, &[(None, "hdfs://x")]))
        )),
        none
    );
    assert_eq!(
        error_of(viewfs(&[(None, "hdfs://x"), (Some("/a"), "hdfs://y"), (None, "hdfs://z")])),
        "InvalidArgument(\"Multiple viewfs fallback links found\")"
    );
    assert!(viewfs(&[(None, "hdfs://x")]).is_ok());
}

#[test]
fn the_first_faulty_link_is_reported() {
    assert_eq!(
        error_of(viewfs(&[(Some("/a"), "s3://x"), (Some("/b"), "nope")])),
        "InvalidArgument(\"Only hdfs mounts are supported for viewfs\")"
    );
    assert_eq!(
        error_of(viewfs(&[(None, "hdfs://x"), (None, "s3://y")])),
        "InvalidArgument(\"Only hdfs mounts are supported for viewfs\")"
    );
}

#[test]
fn links_are_added_from_parsed_urls() {
    let parts = |scheme: &str, host: Option<&str>| UrlParts {
        scheme: scheme.to_string(),
        host: host.map(|h| h.to_string()),
        port: None,
        path: String::new(),
    };
    let mut builder = MountTableBuilder::new();
    assert!(builder.add(&Some("/a".to_string()), Ok(parts("hdfs", Some("x")))).is_ok());
    assert!(builder.add(&None, Err(UrlError::Overflow)).is_err());
    assert!(builder.add(&None, Ok(parts("hdfs", None))).is_err());
    assert!(builder.add(&None, Ok(parts("http", Some("x")))).is_err());
    assert!(builder.add(&None, Ok(parts("hdfs", Some("y")))).is_ok());
    assert!(builder.add(&None, Ok(parts("hdfs", Some("z")))).is_err());
    let table = builder.finish().unwrap();
    assert_eq!(table.mounts.len(), 1);
    assert_eq!(table.mounts[0].viewfs_path, "/a");
    assert_eq!(table.mounts[0].hdfs_path, "/");
    assert_eq!(table.fallback.viewfs_path, "/");
    assert_eq!(table.fallback.hdfs_path, "/");
    assert_eq!(debug(&table.fallback.protocol), "Named { name: \"y\" }");
}

#[test]
fn a_single_service_keeps_paths() {
    let client = client_at("hdfs://ns");
    for path in ["/", "/a", "/a/b/c"] {
        assert_eq!(
            debug(client.get_file_info(path).request),
            format!("GetFileInfo {{ src: {path:?} }}")
        );
    }
    assert_eq!(
        debug(client.get_file_info("/a//b/").request),
        "GetFileInfo { src: \"/a//b\" }"
    );
    assert!(client.rename("/a", "/b/c", false).is_ok());
}

#[test]
fn the_most_specific_mount_serves() {
    let client = mounted();
    let (service, request) = shown(&client.get_file_info("/data/raw/x"));
    assert_eq!(service, "two");
    assert_eq!(request, "GetFileInfo { src: \"/x\" }");
    let (service, request) = shown(&client.get_file_info("/data/x"));
    assert_eq!(service, "one:9000");
    assert_eq!(request, "GetFileInfo { src: \"/warehouse/x\" }");
    let (service, request) = shown(&client.get_file_info("/x"));
    assert_eq!(service, "fallback");
    assert_eq!(request, "GetFileInfo { src: \"/base/x\" }");
}

#[test]
fn relative_paths_are_not_covered() {
    let client = mounted();
    assert!(client.covers_path("/anything"));
    assert!(!client.covers_path("anything"));
    assert!(!client.covers_path(""));
}

#[test]
fn requests_of_the_operations() {
    let client = mounted();
    let text = |call: RpcCall| shown(&call).1;
    assert_eq!(text(client.read("/x")), "GetLocatedFileInfo { src: \"/base/x\" }");
    assert_eq!(
        text(client.create("/x", &WriteOptions::default().replication(2).overwrite(true))),
        "Create { src: \"/base/x\", permission: 420, overwrite: true, create_parent: true, \
         replication: Some(2), block_size: None }"
    );
    assert_eq!(text(client.append("/x")), "Append { src: \"/base/x\", new_block: false }");
    assert_eq!(
        text(client.mkdirs("/x", 0o755, true)),
        "Mkdirs { src: \"/base/x\", permission: 493, create_parent: true }"
    );
    assert_eq!(
        text(client.delete("/x", true)),
        "Delete { src: \"/base/x\", recursive: true }"
    );
    assert_eq!(
        text(client.set_times("/x", 1, 2)),
        "SetTimes { src: \"/base/x\", mtime: 1, atime: 2 }"
    );
    assert_eq!(
        text(client.set_owner("/x", Some("me"), None)),
        "SetOwner { src: \"/base/x\", owner: Some(\"me\"), group: None }"
    );
    assert_eq!(
        text(client.set_permission("/x", 0o755)),
        "SetPermission { src: \"/base/x\", permission: 493 }"
    );
    assert_eq!(
        text(client.set_replication("/x", 4)),
        "SetReplication { src: \"/base/x\", replication: 4 }"
    );
    assert_eq!(
        text(client.get_content_summary("/x")),
        "GetContentSummary { src: \"/base/x\" }"
    );
}

#[test]
fn a_rename_stays_on_one_mount_point() {
    let client = mounted();
    let call = client.rename("/data/a", "/data/b", true).unwrap();
    assert_eq!(shown(&call).0, "one:9000");
    assert_eq!(
        shown(&call).1,
        "Rename { src: \"/warehouse/a\", dst: \"/warehouse/b\", overwrite: true }"
    );
    assert_eq!(
        error_of(client.rename("/data/a", "/data/raw/b", false)),
        "InvalidArgument(\"Cannot rename across different name services\")"
    );
    assert_eq!(
        error_of(client.rename("/data/a", "/b", false)),
        "InvalidArgument(\"Cannot rename across different name services\")"
    );
    assert!(client.rename("/a", "/b", false).is_ok());
}

#[test]
fn a_rename_within_one_service_but_across_mount_points_is_refused() {
    let client = viewfs(&[
        (Some("/a"), "hdfs://one/a"),
        (Some("/b"), "hdfs://one/b"),
        (None, "hdfs://one/"),
    ])
    .unwrap();
    assert!(client.rename("/a/x", "/b/x", false).is_err());
}

#[test]
fn file_info_replies() {
    let reply = Ok(Some(file(FileType::IsFile, false)));
    assert_eq!(Client::get_file_info_reply("/a/b", reply).unwrap().path, "/a/b");
    assert_eq!(
        error_of(Client::get_file_info_reply::<()>("/a/b", Ok(None))),
        "FileNotFound(\"/a/b\")"
    );
    let failed = Err(HdfsError::External("down".to_string()));
    assert_eq!(error_of(Client::get_file_info_reply::<()>("/a", failed)), "External(\"down\")");
}

fn located(status: HdfsFileStatus<&'static str>) -> LocatedFile<u8, u8, &'static str> {
    LocatedFile { status, ec_schema: None, locations: Some(7) }
}

#[test]
fn a_reader_starts_from_the_located_file() {
    let client = mounted();
    let reader = client
        .read_reply("/data/x", Ok(Some(located(file(FileType::IsFile, false)))))
        .unwrap();
    assert_eq!(debug(&reader.protocol), "NameNode { host: \"one\", port: 9000 }");
    assert_eq!(reader.locations, 7);
    assert_eq!(reader.ec_schema, None);
    assert_eq!(reader.status.file_id, Some(42));
    assert_eq!(reader.status.extra, "RS-6-3-1024k");

    let coded = LocatedFile { ec_schema: Some(Ok(3)), ..located(file(FileType::IsFile, false)) };
    assert_eq!(client.read_reply("/data/x", Ok(Some(coded))).unwrap().ec_schema, Some(3));
}

#[test]
fn what_cannot_be_read() {
    let client = mounted();
    let read = |reply: Result<Option<LocatedFile<u8, u8, &'static str>>, HdfsError>| {
        error_of(client.read_reply("/x", reply))
    };
    let bad_policy = || Some(Err(HdfsError::UnsupportedFeature("policy".to_string())));
    assert_eq!(read(Ok(None)), "FileNotFound(\"/x\")");
    assert_eq!(read(Err(HdfsError::External("down".to_string()))), "External(\"down\")");
    assert_eq!(
        read(Ok(Some(located(file(FileType::IsDir, false))))),
        "IsADirectoryError(\"/x\")"
    );
    assert_eq!(
        read(Ok(Some(located(file(FileType::IsDir, true))))),
        "UnsupportedFeature(\"File encryption\")"
    );
    assert_eq!(
        read(Ok(Some(LocatedFile {
            ec_schema: bad_policy(),
            ..located(file(FileType::IsDir, true))
        }))),
        "UnsupportedFeature(\"policy\")"
    );
    assert_eq!(
        read(Ok(Some(LocatedFile {
            locations: None,
            ..located(file(FileType::IsFile, false))
        }))),
        "BlocksNotFound(\"/x\")"
    );
    assert_eq!(
        read(Ok(Some(LocatedFile {
            locations: None,
            ..located(file(FileType::IsDir, false))
        }))),
        "IsADirectoryError(\"/x\")"
    );
}

#[test]
fn a_created_file_is_written_at_its_resolved_path() {
    let client = mounted();
    let step: CreateStep<u8, u8, &'static str> =
        client.create_reply("/data/x", Ok(Some(file(FileType::IsFile, false))));
    match step {
        CreateStep::Done(Ok(writer)) => {
            assert_eq!(writer.path, "/warehouse/x");
            assert_eq!(debug(&writer.protocol), "NameNode { host: \"one\", port: 9000 }");
            assert!(writer.last_block.is_none());
            assert_eq!(writer.status.file_id, Some(42));
            assert_eq!(writer.status.extra, "RS-6-3-1024k");
        }
        other => panic!("{other:?}"),
    }
}

#[test]
fn an_encrypted_new_file_is_deleted_again() {
    let client = mounted();
    let step: CreateStep<u8, u8, &'static str> =
        client.create_reply("/data/x", Ok(Some(file(FileType::IsFile, true))));
    match step {
        CreateStep::Undo { call, error } => {
            assert_eq!(shown(&call).0, "one:9000");
            assert_eq!(shown(&call).1, "Delete { src: \"/warehouse/x\", recursive: false }");
            assert_eq!(debug(error), "UnsupportedFeature(\"File encryption\")");
        }
        other => panic!("{other:?}"),
    }
}

#[test]
fn a_file_that_was_not_created() {
    let client = mounted();
    let step: CreateStep<u8, u8, &'static str> = client.create_reply("/x", Ok(None));
    assert_eq!(debug(step), "Done(Err(FileNotFound(\"/x\")))");
    let refused = HdfsError::RPCError("class".to_string(), "message".to_string());
    let step: CreateStep<u8, u8, &'static str> = client.create_reply("/x", Err(refused));
    assert_eq!(debug(step), "Done(Err(RPCError(\"class\", \"message\")))");
}

#[test]
fn when_a_new_block_is_needed() {
    let class = "java.lang.UnsupportedOperationException";
    assert!(Client::needs_new_block(class, "NEW_BLOCK"));
    assert!(Client::needs_new_block(class, "Append without NEW_BLOCK is not supported"));
    assert!(!Client::needs_new_block(class, "new_block"));
    assert!(!Client::needs_new_block(class, "NEW_BLOC"));
    assert!(!Client::needs_new_block(class, ""));
    assert!(!Client::needs_new_block("java.io.IOException", "NEW_BLOCK"));
    assert!(!Client::needs_new_block("lang.UnsupportedOperationException", "NEW_BLOCK"));
}

fn refused(msg: &str) -> Result<AppendResponse<u8, char, &'static str>, HdfsError> {
    Err(HdfsError::RPCError(
        "java.lang.UnsupportedOperationException".to_string(),
        msg.to_string(),
    ))
}

#[test]
fn an_append_is_retried_once_with_a_new_block() {
    let client = mounted();
    match client.append_reply("/data/x", AppendAttempt::CurrentBlock, refused("no NEW_BLOCK")) {
        AppendStep::Retry { call, attempt } => {
            assert_eq!(attempt, AppendAttempt::NewBlock);
            assert_eq!(shown(&call).0, "one:9000");
            assert_eq!(shown(&call).1, "Append { src: \"/warehouse/x\", new_block: true }");
        }
        other => panic!("{other:?}"),
    }
    match client.append_reply("/data/x", AppendAttempt::NewBlock, refused("no NEW_BLOCK")) {
        AppendStep::Done(Err(HdfsError::RPCError(_, msg))) => assert_eq!(msg, "no NEW_BLOCK"),
        other => panic!("{other:?}"),
    }
    match client.append_reply("/data/x", AppendAttempt::CurrentBlock, refused("other")) {
        AppendStep::Done(Err(HdfsError::RPCError(_, msg))) => assert_eq!(msg, "other"),
        other => panic!("{other:?}"),
    }
    let down: Result<AppendResponse<u8, char, &'static str>, HdfsError> =
        Err(HdfsError::External("NEW_BLOCK".to_string()));
    assert_eq!(
        debug(client.append_reply("/x", AppendAttempt::CurrentBlock, down)),
        "Done(Err(External(\"NEW_BLOCK\")))"
    );
}

#[test]
fn an_append_asks_at_most_twice() {
    let client = mounted();
    let mut call = client.append("/data/x");
    let mut attempt = AppendAttempt::CurrentBlock;
    let mut asked = Vec::new();
    loop {
        asked.push(shown(&call).1);
        match client.append_reply("/data/x", attempt, refused("no NEW_BLOCK")) {
            AppendStep::Retry { call: next_call, attempt: next_attempt } => {
                call = next_call;
                attempt = next_attempt;
            }
            AppendStep::Done(Err(_)) => break,
            other => panic!("{other:?}"),
        }
    }
    assert_eq!(
        asked,
        [
            "Append { src: \"/warehouse/x\", new_block: false }",
            "Append { src: \"/warehouse/x\", new_block: true }",
        ]
    );
}

#[test]
fn an_append_goes_on_with_the_last_block() {
    let client = mounted();
    let response = AppendResponse {
        block: Some(LocatedBlock { b: 5u8, details: 'd' }),
        stat: Some(file(FileType::IsFile, false)),
    };
    match client.append_reply("/data/x", AppendAttempt::CurrentBlock, Ok(response)) {
        AppendStep::Done(Ok(writer)) => {
            assert_eq!(writer.path, "/warehouse/x");
            assert_eq!(writer.status.extra, "RS-6-3-1024k");
            let block = writer.last_block.unwrap();
            assert_eq!((block.b, block.details), (5, 'd'));
        }
        other => panic!("{other:?}"),
    }
    let response: AppendResponse<u8, char, &'static str> = AppendResponse { block: None, stat: None };
    assert_eq!(
        debug(client.append_reply("/data/x", AppendAttempt::NewBlock, Ok(response))),
        "Done(Err(FileNotFound(\"/data/x\")))"
    );
}

#[test]
fn an_encrypted_file_is_closed_again() {
    let client = mounted();
    let response = AppendResponse {
        block: Some(LocatedBlock { b: 5u8, details: 'd' }),
        stat: Some(file(FileType::IsFile, true)),
    };
    match client.append_reply("/data/x", AppendAttempt::NewBlock, Ok(response)) {
        AppendStep::Close { call, error } => {
            assert_eq!(debug(&call.protocol), "NameNode { host: \"one\", port: 9000 }");
            assert_eq!(call.src, "/data/x");
            assert_eq!(call.last, Some(5));
            assert_eq!(call.file_id, Some(42));
            assert_eq!(debug(error), "UnsupportedFeature(\"File encryption\")");
        }
        other => panic!("{other:?}"),
    }
}

#[test]
fn a_listing_fails_with_its_first_error() {
    let status = |path: &str| -> Result<FileStatus, HdfsError> {
        Ok(FileStatus::from(file(FileType::IsFile, false), path))
    };
    let failed = |path: &str| -> Result<FileStatus, HdfsError> {
        Err(HdfsError::FileNotFound(path.to_string()))
    };
    let all = Client::list_status(vec![status("/a"), status("/b")]).unwrap();
    let paths: Vec<&str> = all.iter().map(|s| s.path.as_str()).collect();
    assert_eq!(paths, ["/a", "/b"]);
    assert!(Client::list_status(Vec::new()).unwrap().is_empty());
    assert_eq!(
        error_of(Client::list_status(vec![status("/a"), failed("/b"), failed("/c")])),
        "FileNotFound(\"/b\")"
    );
}

#[test]
fn content_summary_replies() {
    let reply = ContentSummaryProto {
        length: 1,
        file_count: 2,
        directory_count: 3,
        quota: 4,
        space_consumed: 5,
        space_quota: 6,
    };
    let summary = Client::get_content_summary_reply(Ok(reply)).unwrap();
    assert_eq!((summary.length, summary.space_quota), (1, 6));
    let failed = Err(HdfsError::External("down".to_string()));
    assert_eq!(error_of(Client::get_content_summary_reply(failed)), "External(\"down\")");
}

#[test]
fn acknowledgements() {
    assert!(Client::acknowledged(Ok(17)).is_ok());
    let failed: Result<u8, HdfsError> = Err(HdfsError::External("down".to_string()));
    assert_eq!(error_of(Client::acknowledged(failed)), "External(\"down\")");
}

#[test]
fn calls_share_the_name_service_of_their_link() {
    let client = mounted();
    let a = client.get_file_info("/data/x");
    let b = client.delete("/data/y", false);
    assert!(Arc::ptr_eq(&a.protocol, &b.protocol));
    match a.request {
        Request::GetFileInfo { src } => assert_eq!(src, "/warehouse/x"),
        other => panic!("{other:?}"),
    }
}
