//! The client: which request an operation sends to which name service, and what its reply means.
use vstd::prelude::*;

use crate::address::{
    parse_url, service_of, url_of, NameService, NameServiceView, UrlParts, UrlView,
};
use crate::config::{
    configured_views, links_for, Configuration, ConfigurationView, ConfiguredLinkView,
};
use crate::error::{invalid_argument, ErrorView, HdfsError, UrlError};
use crate::listing::{ListStatusIterator, WalkView};
use crate::mount::{
    law_absolute_path_is_covered, law_first_mount_above_path_is_chosen, law_resolve_keeps_last_name,
    law_resolve_keeps_text, law_resolve_replaces_mount_point, lemma_root_components, link_between,
    LinkView, MountLink, MountTable, TableView,
};
use crate::open::{
    AppendAttempt, AppendResponse, AppendStep, AppendStepView, CompleteCall, CreateStep,
    CreateStepView, LocatedFile, OpenReader, OpenWriter, ReaderView, WriterView,
};
use crate::options::WriteOptions;
use crate::path::{components, is_absolute, law_name_is_kept, paths_equal, same_path};
use crate::rpc::{CallView, Request, RequestView, RpcCall};
use crate::shared::share;
use crate::status::{
    status_of, ContentSummary, ContentSummaryProto, FileStatus, FileType, HdfsFileStatus,
};
use crate::text::{
    contains_text, has_text, law_contained_is_part, law_part_is_contained, optional_text, text_eq,
};
use crate::viewfs::{
    finished, law_mount_order_keeps_links, law_target_is_mounted_as_configured, with_link,
    BuilderView, MountTableBuilder,
};
use std::sync::Arc;

verus! {

/// The table under construction after all `links`, in order, or the first error that one of
/// them makes.
pub open spec fn collected(links: Seq<ConfiguredLinkView>) -> Result<BuilderView, ErrorView>
    decreases links.len(),
{
    if links.len() == 0 {
        Ok(BuilderView::empty())
    } else {
        match collected(links.drop_last()) {
            Err(e) => Err(e),
            Ok(table) => with_link(table, links.last().viewfs_path, url_of(links.last().hdfs_url)),
        }
    }
}

/// The mount table that the configured links make.
pub open spec fn viewfs_table(links: Seq<ConfiguredLinkView>) -> Result<TableView, ErrorView> {
    match collected(links) {
        Err(e) => Err(e),
        Ok(table) => finished(table),
    }
}

/// The mount table of a single name service: every path stands for itself.
pub open spec fn single_service_table(service: NameServiceView) -> TableView {
    TableView { mounts: Seq::empty(), fallback: link_between(seq!['/'], seq!['/'], service) }
}

/// The mount table of the client for a URL. The URL needs a host and the scheme `hdfs` or
/// `viewfs`; for `viewfs`, the host names the configured mount table.
pub open spec fn table_for(url: UrlView, config: ConfigurationView) -> Result<
    TableView,
    ErrorView,
> {
    match url.host {
        None => Err(ErrorView::InvalidArgument("URL must contain a host"@)),
        Some(host) => if url.scheme == "hdfs"@ {
            Ok(single_service_table(service_of(host, url.port)))
        } else if url.scheme == "viewfs"@ {
            viewfs_table(links_for(config.mount_tables, host))
        } else {
            Err(ErrorView::InvalidArgument("Only `hdfs` and `viewfs` schemes are supported"@))
        },
    }
}

/// What the outcome of loading the configuration says.
pub open spec fn loaded(config: Result<Configuration, HdfsError>) -> Result<
    ConfigurationView,
    ErrorView,
> {
    match config {
        Ok(config) => Ok(config@),
        Err(e) => Err(e@),
    }
}

/// The mount table of the client for the text of a URL. A text that is no URL is reported before
/// a configuration that did not load.
pub open spec fn table_at(text: Seq<char>, config: Result<ConfigurationView, ErrorView>) -> Result<
    TableView,
    ErrorView,
> {
    match url_of(text) {
        Err(e) => Err(ErrorView::UrlParseError(e)),
        Ok(url) => match config {
            Err(e) => Err(e),
            Ok(config) => table_for(url, config),
        },
    }
}

/// The mount table of the client for the default file system.
pub open spec fn default_table(config: Result<ConfigurationView, ErrorView>) -> Result<
    TableView,
    ErrorView,
> {
    match config {
        Err(e) => Err(e),
        Ok(settings) => match settings.default_fs {
            None => Err(ErrorView::InvalidArgument("No fs.defaultFS setting found"@)),
            Some(text) => table_at(text, config),
        },
    }
}

/// A client of HDFS.
#[derive(Debug)]
pub struct Client {
    mount_table: Arc<MountTable>,
}

impl View for Client {
    type V = TableView;

    closed spec fn view(&self) -> TableView {
        self.mount_table@
    }
}

/// `res` is a client with the mount table `expected`, or the error that stands in its place.
pub open spec fn is_client(
    res: Result<Client, HdfsError>,
    expected: Result<TableView, ErrorView>,
) -> bool {
    match expected {
        Ok(table) => res matches Ok(client) && client@ == table && client.wf(),
        Err(e) => res matches Err(error) && error@ == e,
    }
}

impl Client {
    /// The mount table of a client serves every absolute path and tries deep mount points first.
    pub open spec fn wf(&self) -> bool {
        self@.ordered()
    }

    /// The call of a request to the name service that serves `path`.
    pub open spec fn call(&self, path: Seq<char>, request: RequestView) -> CallView {
        CallView { protocol: self@.link_for(path).protocol, request }
    }

    /// Creates a client for `url`, given what loading the configuration gave. The URL must have
    /// a protocol and a host, and optionally a port. If a port is included, the host is treated
    /// as a single NameNode. If no port is included, the host is treated as a name service that
    /// will be resolved using the configuration.
    pub fn new(url: &str, config: Result<Configuration, HdfsError>) -> (res: Result<
        Client,
        HdfsError,
    >)
        ensures
            is_client(res, table_at(url@, loaded(config))),
    {
        let parsed_url = match UrlParts::parse(url) {
            Ok(parsed_url) => parsed_url,
            Err(e) => {
                return Err(e);
            },
        };
        match config {
            Ok(config) => Self::with_config(&parsed_url, &config),
            Err(e) => Err(e),
        }
    }

    /// Creates a client for `url`, given what loading the configuration with the caller's
    /// settings gave.
    pub fn new_with_config(url: &str, config: Result<Configuration, HdfsError>) -> (res: Result<
        Client,
        HdfsError,
    >)
        ensures
            is_client(res, table_at(url@, loaded(config))),
    {
        Self::new(url, config)
    }

    /// Creates a client for the file system that the `fs.defaultFS` setting names.
    pub fn default_with_config(config: Result<Configuration, HdfsError>) -> (res: Result<
        Client,
        HdfsError,
    >)
        ensures
            is_client(res, default_table(loaded(config))),
    {
        let config = match config {
            Ok(config) => config,
            Err(e) => {
                return Err(e);
            },
        };
        match &config.default_fs {
            Some(url) => match UrlParts::parse(url) {
                Ok(parsed_url) => Self::with_config(&parsed_url, &config),
                Err(e) => Err(e),
            },
            None => Err(invalid_argument("No fs.defaultFS setting found")),
        }
    }

    /// Creates a client for a URL.
    pub fn with_config(url: &UrlParts, config: &Configuration) -> (res: Result<Client, HdfsError>)
        ensures
            is_client(res, table_for(url@, config@)),
    {
        let host = match &url.host {
            Some(host) => host,
            None => {
                return Err(invalid_argument("URL must contain a host"));
            },
        };
        proof {
            reveal_strlit("hdfs");
            reveal_strlit("viewfs");
            reveal_strlit("/");
            assert("/"@ =~= seq!['/']);
        }
        let mount_table = if text_eq(&url.scheme, "hdfs") {
            let protocol = Arc::new(NameService::new(host, url.port));
            let table = MountTable {
                mounts: Vec::new(),
                fallback: MountLink::new("/", "/", protocol),
            };
            assert(table@ =~= single_service_table(service_of(host@, url.port)));
            table
        } else if text_eq(&url.scheme, "viewfs") {
            match Self::build_mount_table(host, config) {
                Ok(table) => table,
                Err(e) => {
                    return Err(e);
                },
            }
        } else {
            return Err(invalid_argument("Only `hdfs` and `viewfs` schemes are supported"));
        };
        Ok(Client { mount_table: Arc::new(mount_table) })
    }

    /// The mount table that is configured under the name `host`.
    pub fn build_mount_table(host: &str, config: &Configuration) -> (res: Result<
        MountTable,
        HdfsError,
    >)
        ensures
            match viewfs_table(links_for(config@.mount_tables, host@)) {
                Ok(table) => res matches Ok(t) && t@ == table && table.ordered(),
                Err(e) => res matches Err(error) && error@ == e,
            },
    {
        let mut table = MountTableBuilder::new();
        match config.get_mount_table(host) {
            Some(links) => {
                let ghost all = configured_views(links@);
                assert(all.take(0) =~= Seq::<ConfiguredLinkView>::empty());
                let mut i: usize = 0;
                while i < links.len()
                    invariant
                        all == configured_views(links@),
                        all == links_for(config@.mount_tables, host@),
                        i <= links@.len(),
                        table@.wf(),
                        collected(all.take(i as int)) == Ok::<BuilderView, ErrorView>(table@),
                    decreases links@.len() - i,
                {
                    let link = &links[i];
                    let url = parse_url(&link.hdfs_url);
                    proof {
                        assert(all.take(i + 1).drop_last() =~= all.take(i as int));
                        assert(all.take(i + 1).last() == link@);
                    }
                    match table.add(&link.viewfs_path, url) {
                        Ok(_) => {},
                        Err(e) => {
                            proof {
                                lemma_first_error(all, i + 1);
                            }
                            return Err(e);
                        },
                    }
                    i = i + 1;
                }
                assert(all.take(all.len() as int) =~= all);
            },
            None => {},
        }
        table.finish()
    }

    /// Whether some link of the client serves `path`. It does if the path is absolute.
    pub fn covers_path(&self, path: &str) -> (res: bool)
        ensures
            res == self@.covers(path@),
    {
        self.mount_table.covers_path(path)
    }

    /// The name service that serves `path`, and the path there.
    fn locate(&self, path: &str) -> (res: (Arc<NameService>, String))
        requires
            self.wf(),
            self@.covers(path@),
        ensures
            res.0@ == self@.link_for(path@).protocol,
            res.1@ == self@.target(path@),
    {
        let (link, resolved_path) = self.mount_table.resolve(path);
        (share(&link.protocol), resolved_path)
    }

    /// The request for the status of the file at `path`.
    pub fn get_file_info(&self, path: &str) -> (res: RpcCall)
        requires
            self.wf(),
            self@.covers(path@),
        ensures
            res@ == self.call(path@, RequestView::GetFileInfo { src: self@.target(path@) }),
            res.protocol@ == self@.link_for(path@).protocol,
            res.request matches Request::GetFileInfo { src } && src@ == self@.target(path@),
    {
        let (protocol, src) = self.locate(path);
        RpcCall { protocol, request: Request::GetFileInfo { src } }
    }

    /// The status of the file at `path`, from the reply to the request for it.
    pub fn get_file_info_reply<E>(
        path: &str,
        reply: Result<Option<HdfsFileStatus<E>>, HdfsError>,
    ) -> (res: Result<FileStatus, HdfsError>)
        ensures
            match reply {
                Ok(Some(status)) => res matches Ok(s) && s@ == status_of(status@, path@)
                    && s.length == status.length as usize && (s.isdir <==> status.file_type
                    == FileType::IsDir) && s.permission as int == status.permission as int
                    % 0x1_0000 && s.owner == status.owner && s.group == status.group
                    && s.modification_time == status.modification_time && s.access_time
                    == status.access_time && s.replication == status.block_replication
                    && s.blocksize == status.blocksize,
                Ok(None) => res matches Err(e) && e@ == ErrorView::FileNotFound(path@),
                Err(error) => res == Err::<FileStatus, HdfsError>(error),
            },
    {
        match reply {
            Ok(Some(status)) => Ok(FileStatus::from(status, path)),
            Ok(None) => Err(HdfsError::FileNotFound(path.to_string())),
            Err(error) => Err(error),
        }
    }

    /// The statuses of a complete listing, or the first error in it.
    pub fn list_status(statuses: Vec<Result<FileStatus, HdfsError>>) -> (res: Result<
        Vec<FileStatus>,
        HdfsError,
    >)
        ensures
            match res {
                Ok(all) => all@.len() == statuses@.len() && forall|i: int|
                    0 <= i < statuses@.len() ==> #[trigger] statuses@[i] == Ok::<
                        FileStatus,
                        HdfsError,
                    >(all@[i]),
                Err(e) => exists|i: int|
                    0 <= i < statuses@.len() && #[trigger] statuses@[i] == Err::<
                        FileStatus,
                        HdfsError,
                    >(e) && (forall|j: int| 0 <= j < i ==> (#[trigger] statuses@[j]) is Ok),
            },
    {
        let ghost all = statuses@;
        let mut res: Vec<FileStatus> = Vec::with_capacity(statuses.len());
        for status in it: statuses.into_iter()
            invariant
                it.seq() == all,
                res@.len() == it.index(),
                forall|i: int|
                    0 <= i < it.index() ==> #[trigger] all[i] == Ok::<FileStatus, HdfsError>(
                        res@[i],
                    ),
        {
            match status {
                Ok(file) => {
                    res.push(file);
                },
                Err(e) => {
                    assert(all[it.index() as int] == Err::<FileStatus, HdfsError>(e));
                    return Err(e);
                },
            }
        }
        Ok(res)
    }

    /// The walk of the directory at `path`.
    pub fn list_status_iter(&self, path: &str, recursive: bool) -> (res: ListStatusIterator)
        requires
            self.wf(),
            self@.covers(path@),
        ensures
            res@ == WalkView::fresh(self@, path@, recursive),
            res.wf(),
    {
        ListStatusIterator::new(path.to_string(), share(&self.mount_table), recursive)
    }

    /// The request for the file at `path` and the locations of its blocks.
    pub fn read(&self, path: &str) -> (res: RpcCall)
        requires
            self.wf(),
            self@.covers(path@),
        ensures
            res@ == self.call(path@, RequestView::GetLocatedFileInfo { src: self@.target(path@) }),
            res.protocol@ == self@.link_for(path@).protocol,
            res.request matches Request::GetLocatedFileInfo { src } && src@ == self@.target(path@),
    {
        let (protocol, src) = self.locate(path);
        RpcCall { protocol, request: Request::GetLocatedFileInfo { src } }
    }

    /// What a reader of the file at `path` starts from, from the reply to the request for the
    /// file.
    pub fn read_reply<L, S, E>(
        &self,
        path: &str,
        reply: Result<Option<LocatedFile<L, S, E>>, HdfsError>,
    ) -> (res: Result<OpenReader<L, S, E>, HdfsError>)
        requires
            self.wf(),
            self@.covers(path@),
        ensures
            reader_result(res) == reader_for(self@, path@, reply),
            reply matches Err(e) ==> res == Err::<OpenReader<L, S, E>, HdfsError>(e),
            res is Ok <==> (reply matches Ok(Some(file)) && !(file.ec_schema matches Some(Err(_)))
                && !file.status.encrypted && file.status.file_type != FileType::IsDir
                && file.locations is Some),
            res matches Ok(reader) ==> (reply matches Ok(Some(file)) && reader.protocol@
                == self@.link_for(path@).protocol && reader.status == file.status && Some(
                reader.locations,
            ) == file.locations && (reader.ec_schema is Some <==> file.ec_schema is Some) && (
            reader.ec_schema matches Some(schema) ==> file.ec_schema == Some(
                Ok::<S, HdfsError>(schema),
            ))),
    {
        let located = match reply {
            Ok(Some(located)) => located,
            Ok(None) => {
                return Err(HdfsError::FileNotFound(path.to_string()));
            },
            Err(e) => {
                return Err(e);
            },
        };
        let ec_schema = match located.ec_schema {
            Some(Ok(schema)) => Some(schema),
            Some(Err(e)) => {
                return Err(e);
            },
            None => None,
        };
        if located.status.encrypted {
            return Err(HdfsError::UnsupportedFeature("File encryption".to_string()));
        }
        if located.status.file_type == FileType::IsDir {
            return Err(HdfsError::IsADirectoryError(path.to_string()));
        }
        match located.locations {
            Some(locations) => {
                let (protocol, _) = self.locate(path);
                Ok(OpenReader { protocol, status: located.status, locations, ec_schema })
            },
            None => Err(HdfsError::BlocksNotFound(path.to_string())),
        }
    }

    /// The request for a new file at `src`. See [WriteOptions] for the options.
    pub fn create(&self, src: &str, write_options: &WriteOptions) -> (res: RpcCall)
        requires
            self.wf(),
            self@.covers(src@),
        ensures
            res@ == self.call(
                src@,
                RequestView::Create {
                    src: self@.target(src@),
                    permission: write_options.permission,
                    overwrite: write_options.overwrite,
                    create_parent: write_options.create_parent,
                    replication: write_options.replication,
                    block_size: write_options.block_size,
                },
            ),
            res.protocol@ == self@.link_for(src@).protocol,
            res.request matches Request::Create {
                src: target,
                permission,
                overwrite,
                create_parent,
                replication,
                block_size,
            } && target@ == self@.target(src@) && permission == write_options.permission
                && overwrite == write_options.overwrite && create_parent
                == write_options.create_parent && replication == write_options.replication
                && block_size == write_options.block_size,
    {
        let (protocol, target) = self.locate(src);
        RpcCall {
            protocol,
            request: Request::Create {
                src: target,
                permission: write_options.permission,
                overwrite: write_options.overwrite,
                create_parent: write_options.create_parent,
                replication: write_options.replication,
                block_size: write_options.block_size,
            },
        }
    }

    /// What follows the reply to the request for a new file at `src`. A file that turns out to
    /// be encrypted is deleted again.
    pub fn create_reply<B, D, E>(
        &self,
        src: &str,
        reply: Result<Option<HdfsFileStatus<E>>, HdfsError>,
    ) -> (res: CreateStep<B, D, E>)
        requires
            self.wf(),
            self@.covers(src@),
        ensures
            res@ == created::<B, D, E>(*self, src@, reply),
            match reply {
                Err(e) => res == CreateStep::<B, D, E>::Done(Err(e)),
                Ok(None) => res matches CreateStep::Done(Err(HdfsError::FileNotFound(path)))
                    && path@ == src@,
                Ok(Some(status)) => if status.encrypted {
                    res matches CreateStep::Undo { call, error } && (call.protocol@
                        == self@.link_for(src@).protocol) && (
                    call.request matches Request::Delete { src: target, recursive } && target@
                        == self@.target(src@) && !recursive) && (
                    error matches HdfsError::UnsupportedFeature(feature) && feature@
                        == "File encryption"@)
                } else {
                    res matches CreateStep::Done(Ok(writer)) && writer.protocol@ == self@.link_for(
                        src@,
                    ).protocol && writer.path@ == self@.target(src@) && writer.status == status
                        && writer.last_block is None
                },
            },
    {
        match reply {
            Ok(Some(status)) => if status.encrypted {
                CreateStep::Undo {
                    call: self.delete(src, false),
                    error: HdfsError::UnsupportedFeature("File encryption".to_string()),
                }
            } else {
                let (protocol, path) = self.locate(src);
                CreateStep::Done(Ok(OpenWriter { protocol, path, status, last_block: None }))
            },
            Ok(None) => CreateStep::Done(Err(HdfsError::FileNotFound(src.to_string()))),
            Err(e) => CreateStep::Done(Err(e)),
        }
    }

    /// Whether the error of a NameNode says that appending needs a new block.
    pub fn needs_new_block(class: &str, msg: &str) -> (res: bool)
        ensures
            res == new_block_needed(class@, msg@),
    {
        text_eq(class, "java.lang.UnsupportedOperationException") && has_text(msg, "NEW_BLOCK")
    }

    /// The first request to append to the file at `src`: it assumes that the file is replicated
    /// and goes on with its last block.
    pub fn append(&self, src: &str) -> (res: RpcCall)
        requires
            self.wf(),
            self@.covers(src@),
        ensures
            res@ == self.call(
                src@,
                RequestView::Append { src: self@.target(src@), new_block: false },
            ),
            res.protocol@ == self@.link_for(src@).protocol,
            res.request matches Request::Append { src: target, new_block } && target@
                == self@.target(src@) && !new_block,
    {
        let (protocol, target) = self.locate(src);
        RpcCall { protocol, request: Request::Append { src: target, new_block: false } }
    }

    /// What follows the reply to a request to append to the file at `src`. If the first request
    /// fails because the file is erasure coded, a second one asks for a new block. A file that
    /// turns out to be encrypted is closed again.
    pub fn append_reply<B, D, E>(
        &self,
        src: &str,
        attempt: AppendAttempt,
        reply: Result<AppendResponse<B, D, E>, HdfsError>,
    ) -> (res: AppendStep<B, D, E>)
        requires
            self.wf(),
            self@.covers(src@),
        ensures
            res@ == appended(*self, src@, attempt, reply),
            match reply {
                Err(e) => (res matches AppendStep::Retry { call, attempt: next } && attempt
                    == AppendAttempt::CurrentBlock && next == AppendAttempt::NewBlock && (
                e matches HdfsError::RPCError(class, msg) && new_block_needed(class@, msg@))
                    && call.protocol@ == self@.link_for(src@).protocol && (
                call.request matches Request::Append { src: target, new_block } && target@
                    == self@.target(src@) && new_block)) || (res matches AppendStep::Done(Err(error))
                    && error@ == e@),
                Ok(response) => match response.stat {
                    None => res matches AppendStep::Done(Err(HdfsError::FileNotFound(path)))
                        && path@ == src@,
                    Some(status) => if status.encrypted {
                        res matches AppendStep::Close { call, error } && call.protocol@
                            == self@.link_for(src@).protocol && call.src@ == src@
                            && call.file_id == status.file_id && (call.last is Some
                            <==> response.block is Some) && (call.last is Some ==> call.last->0
                            == response.block->0.b) && (
                        error matches HdfsError::UnsupportedFeature(feature) && feature@
                            == "File encryption"@)
                    } else {
                        res matches AppendStep::Done(Ok(writer)) && writer.protocol@
                            == self@.link_for(src@).protocol && writer.path@ == self@.target(src@)
                            && writer.status == status && writer.last_block == response.block
                    },
                },
            },
    {
        let response = match reply {
            Ok(response) => response,
            Err(HdfsError::RPCError(class, msg)) => {
                if attempt == AppendAttempt::CurrentBlock && Self::needs_new_block(&class, &msg) {
                    let (protocol, target) = self.locate(src);
                    return AppendStep::Retry {
                        call: RpcCall {
                            protocol,
                            request: Request::Append { src: target, new_block: true },
                        },
                        attempt: AppendAttempt::NewBlock,
                    };
                }
                return AppendStep::Done(Err(HdfsError::RPCError(class, msg)));
            },
            Err(e) => {
                return AppendStep::Done(Err(e));
            },
        };
        match response.stat {
            Some(status) => {
                let (protocol, path) = self.locate(src);
                if status.encrypted {
                    AppendStep::Close {
                        call: CompleteCall {
                            protocol,
                            src: src.to_string(),
                            last: match response.block {
                                Some(block) => Some(block.b),
                                None => None,
                            },
                            file_id: status.file_id,
                        },
                        error: HdfsError::UnsupportedFeature("File encryption".to_string()),
                    }
                } else {
                    AppendStep::Done(
                        Ok(OpenWriter { protocol, path, status, last_block: response.block }),
                    )
                }
            },
            None => AppendStep::Done(Err(HdfsError::FileNotFound(src.to_string()))),
        }
    }

    /// The request for a new directory at `path` with the given `permission`, the raw octal value
    /// of the Unix style permission. With `create_parent`, missing parent directories are created
    /// as well.
    pub fn mkdirs(&self, path: &str, permission: u32, create_parent: bool) -> (res: RpcCall)
        requires
            self.wf(),
            self@.covers(path@),
        ensures
            res@ == self.call(
                path@,
                RequestView::Mkdirs { src: self@.target(path@), permission, create_parent },
            ),
            res.protocol@ == self@.link_for(path@).protocol,
            res.request matches Request::Mkdirs { src, permission: p, create_parent: c } && src@
                == self@.target(path@) && p == permission && c == create_parent,
    {
        let (protocol, src) = self.locate(path);
        RpcCall { protocol, request: Request::Mkdirs { src, permission, create_parent } }
    }

    /// The request to rename `src` to `dst`. Both must be served by the same mount point.
    pub fn rename(&self, src: &str, dst: &str, overwrite: bool) -> (res: Result<
        RpcCall,
        HdfsError,
    >)
        requires
            self.wf(),
            self@.covers(src@),
            self@.covers(dst@),
        ensures
            if same_path(
                self@.link_for(src@).viewfs_path,
                self@.link_for(dst@).viewfs_path,
            ) {
                res matches Ok(call) && call@ == self.call(
                    src@,
                    RequestView::Rename {
                        src: self@.target(src@),
                        dst: self@.target(dst@),
                        overwrite,
                    },
                )
            } else {
                res matches Err(e) && e@ == ErrorView::InvalidArgument(
                    "Cannot rename across different name services"@,
                )
            },
            res is Ok <==> components(self@.link_for(src@).viewfs_path) == components(
                self@.link_for(dst@).viewfs_path,
            ),
            res matches Ok(call) ==> {
                &&& call.protocol@ == self@.link_for(src@).protocol
                &&& call.request matches Request::Rename { src: s, dst: d, overwrite: o } && s@
                    == self@.target(src@) && d@ == self@.target(dst@) && o == overwrite
            },
    {
        let (src_link, src_resolved_path) = self.mount_table.resolve(src);
        let (dst_link, dst_resolved_path) = self.mount_table.resolve(dst);
        if paths_equal(&src_link.viewfs_path, &dst_link.viewfs_path) {
            Ok(
                RpcCall {
                    protocol: share(&src_link.protocol),
                    request: Request::Rename {
                        src: src_resolved_path,
                        dst: dst_resolved_path,
                        overwrite,
                    },
                },
            )
        } else {
            Err(invalid_argument("Cannot rename across different name services"))
        }
    }

    /// The request to delete the file or directory at `path`. If `recursive` is false and `path`
    /// is a non-empty directory, the NameNode refuses it.
    pub fn delete(&self, path: &str, recursive: bool) -> (res: RpcCall)
        requires
            self.wf(),
            self@.covers(path@),
        ensures
            res@ == self.call(path@, RequestView::Delete { src: self@.target(path@), recursive }),
            res.protocol@ == self@.link_for(path@).protocol,
            res.request matches Request::Delete { src, recursive: r } && src@ == self@.target(path@) && r
                == recursive,
    {
        let (protocol, src) = self.locate(path);
        RpcCall { protocol, request: Request::Delete { src, recursive } }
    }

    /// The request to set the modification and access times of a file, in milliseconds from the
    /// epoch.
    pub fn set_times(&self, path: &str, mtime: u64, atime: u64) -> (res: RpcCall)
        requires
            self.wf(),
            self@.covers(path@),
        ensures
            res@ == self.call(
                path@,
                RequestView::SetTimes { src: self@.target(path@), mtime, atime },
            ),
            res.protocol@ == self@.link_for(path@).protocol,
            res.request matches Request::SetTimes { src, mtime: m, atime: a } && src@ == self@.target(
                path@,
            ) && m == mtime && a == atime,
    {
        let (protocol, src) = self.locate(path);
        RpcCall { protocol, request: Request::SetTimes { src, mtime, atime } }
    }

    /// The request to set the owner and the group of a file, each if it is given.
    pub fn set_owner(&self, path: &str, owner: Option<&str>, group: Option<&str>) -> (res: RpcCall)
        requires
            self.wf(),
            self@.covers(path@),
        ensures
            res@ == self.call(
                path@,
                RequestView::SetOwner {
                    src: self@.target(path@),
                    owner: borrowed_text(owner),
                    group: borrowed_text(group),
                },
            ),
            res.protocol@ == self@.link_for(path@).protocol,
            res.request matches Request::SetOwner { src, owner: o, group: g } && src@ == self@.target(
                path@,
            ) && (o is Some <==> owner is Some) && (o is Some ==> o->0@ == owner->0@) && (g is Some
                <==> group is Some) && (g is Some ==> g->0@ == group->0@),
    {
        let (protocol, src) = self.locate(path);
        RpcCall {
            protocol,
            request: Request::SetOwner { src, owner: owned(owner), group: owned(group) },
        }
    }

    /// The request to set the permission of a file, an octal number of the Unix style permission.
    pub fn set_permission(&self, path: &str, permission: u32) -> (res: RpcCall)
        requires
            self.wf(),
            self@.covers(path@),
        ensures
            res@ == self.call(
                path@,
                RequestView::SetPermission { src: self@.target(path@), permission },
            ),
            res.protocol@ == self@.link_for(path@).protocol,
            res.request matches Request::SetPermission { src, permission: p } && src@ == self@.target(
                path@,
            ) && p == permission,
    {
        let (protocol, src) = self.locate(path);
        RpcCall { protocol, request: Request::SetPermission { src, permission } }
    }

    /// The request to set the replication of a file.
    pub fn set_replication(&self, path: &str, replication: u32) -> (res: RpcCall)
        requires
            self.wf(),
            self@.covers(path@),
        ensures
            res@ == self.call(
                path@,
                RequestView::SetReplication { src: self@.target(path@), replication },
            ),
            res.protocol@ == self@.link_for(path@).protocol,
            res.request matches Request::SetReplication { src, replication: r } && src@ == self@.target(
                path@,
            ) && r == replication,
    {
        let (protocol, src) = self.locate(path);
        RpcCall { protocol, request: Request::SetReplication { src, replication } }
    }

    /// The request for the content summary of the file or directory rooted at `path`.
    pub fn get_content_summary(&self, path: &str) -> (res: RpcCall)
        requires
            self.wf(),
            self@.covers(path@),
        ensures
            res@ == self.call(path@, RequestView::GetContentSummary { src: self@.target(path@) }),
            res.protocol@ == self@.link_for(path@).protocol,
            res.request matches Request::GetContentSummary { src } && src@ == self@.target(path@),
    {
        let (protocol, src) = self.locate(path);
        RpcCall { protocol, request: Request::GetContentSummary { src } }
    }

    /// The content summary, from the reply to the request for it.
    pub fn get_content_summary_reply(reply: Result<ContentSummaryProto, HdfsError>) -> (res: Result<
        ContentSummary,
        HdfsError,
    >)
        ensures
            match reply {
                Ok(summary) => res == Ok::<ContentSummary, HdfsError>(
                    ContentSummary {
                        length: summary.length,
                        file_count: summary.file_count,
                        directory_count: summary.directory_count,
                        quota: summary.quota,
                        space_consumed: summary.space_consumed,
                        space_quota: summary.space_quota,
                    },
                ),
                Err(error) => res == Err::<ContentSummary, HdfsError>(error),
            },
    {
        match reply {
            Ok(summary) => Ok(ContentSummary::from(summary)),
            Err(error) => Err(error),
        }
    }

    /// The outcome of an operation whose reply carries nothing but that it succeeded.
    pub fn acknowledged<T>(reply: Result<T, HdfsError>) -> (res: Result<(), HdfsError>)
        ensures
            match reply {
                Ok(_) => res is Ok,
                Err(error) => res == Err::<(), HdfsError>(error),
            },
    {
        match reply {
            Ok(_) => Ok(()),
            Err(error) => Err(error),
        }
    }
}

/// The text of an optional borrowed string.
pub open spec fn borrowed_text(s: Option<&str>) -> Option<Seq<char>> {
    match s {
        Some(text) => Some(text@),
        None => None,
    }
}

fn owned(s: Option<&str>) -> (res: Option<String>)
    ensures
        optional_text(res) == borrowed_text(s),
{
    match s {
        Some(text) => Some(text.to_string()),
        None => None,
    }
}

/// The error of a NameNode that says that appending needs a new block.
pub open spec fn new_block_needed(class: Seq<char>, msg: Seq<char>) -> bool {
    class == "java.lang.UnsupportedOperationException"@ && contains_text(msg, "NEW_BLOCK"@)
}

/// What the outcome of opening a reader says.
pub open spec fn reader_result<L, S, E>(res: Result<OpenReader<L, S, E>, HdfsError>) -> Result<
    ReaderView<L, S, E>,
    ErrorView,
> {
    match res {
        Ok(reader) => Ok(reader@),
        Err(e) => Err(e@),
    }
}

/// The start of a reader of the file at `path`, or why the file cannot be read: it does not
/// exist, its erasure coding policy is not supported, it is encrypted, it is a directory, or it
/// has no block locations, in this order.
pub open spec fn reader_for<L, S, E>(
    table: TableView,
    path: Seq<char>,
    reply: Result<Option<LocatedFile<L, S, E>>, HdfsError>,
) -> Result<ReaderView<L, S, E>, ErrorView> {
    match reply {
        Err(e) => Err(e@),
        Ok(None) => Err(ErrorView::FileNotFound(path)),
        Ok(Some(file)) => match file.ec_schema {
            Some(Err(e)) => Err(e@),
            Some(Ok(schema)) => reader_with_schema(table, path, file, Some(schema)),
            None => reader_with_schema(table, path, file, None),
        },
    }
}

/// The start of a reader of a file whose erasure coding schema, if it has one, is known.
pub open spec fn reader_with_schema<L, S, E>(
    table: TableView,
    path: Seq<char>,
    file: LocatedFile<L, S, E>,
    ec_schema: Option<S>,
) -> Result<ReaderView<L, S, E>, ErrorView> {
    if file.status.encrypted {
        Err(ErrorView::UnsupportedFeature("File encryption"@))
    } else if file.status.file_type == FileType::IsDir {
        Err(ErrorView::IsADirectoryError(path))
    } else {
        match file.locations {
            None => Err(ErrorView::BlocksNotFound(path)),
            Some(locations) => Ok(
                ReaderView {
                    protocol: table.link_for(path).protocol,
                    status: file.status@,
                    locations,
                    ec_schema,
                },
            ),
        }
    }
}

/// What follows the reply to the request for a new file at `src`.
pub open spec fn created<B, D, E>(
    client: Client,
    src: Seq<char>,
    reply: Result<Option<HdfsFileStatus<E>>, HdfsError>,
) -> CreateStepView<B, D, E> {
    match reply {
        Err(e) => CreateStepView::Done(Err(e@)),
        Ok(None) => CreateStepView::Done(Err(ErrorView::FileNotFound(src))),
        Ok(Some(status)) => if status.encrypted {
            CreateStepView::Undo {
                call: client.call(
                    src,
                    RequestView::Delete { src: client@.target(src), recursive: false },
                ),
                error: ErrorView::UnsupportedFeature("File encryption"@),
            }
        } else {
            CreateStepView::Done(
                Ok(
                    WriterView {
                        protocol: client@.link_for(src).protocol,
                        path: client@.target(src),
                        status: status@,
                        last_block: None,
                    },
                ),
            )
        },
    }
}

/// What follows the reply to a request to append to the file at `src`.
pub open spec fn appended<B, D, E>(
    client: Client,
    src: Seq<char>,
    attempt: AppendAttempt,
    reply: Result<AppendResponse<B, D, E>, HdfsError>,
) -> AppendStepView<B, D, E> {
    match reply {
        Err(e) => if attempt == AppendAttempt::CurrentBlock && (e@ matches ErrorView::RPCError(
            class,
            msg,
        ) && new_block_needed(class, msg)) {
            AppendStepView::Retry {
                call: client.call(
                    src,
                    RequestView::Append { src: client@.target(src), new_block: true },
                ),
                attempt: AppendAttempt::NewBlock,
            }
        } else {
            AppendStepView::Done(Err(e@))
        },
        Ok(response) => match response.stat {
            None => AppendStepView::Done(Err(ErrorView::FileNotFound(src))),
            Some(status) => if status.encrypted {
                AppendStepView::Close {
                    protocol: client@.link_for(src).protocol,
                    src,
                    last: match response.block {
                        Some(block) => Some(block.b),
                        None => None,
                    },
                    file_id: status.file_id,
                    error: ErrorView::UnsupportedFeature("File encryption"@),
                }
            } else {
                AppendStepView::Done(
                    Ok(
                        WriterView {
                            protocol: client@.link_for(src).protocol,
                            path: client@.target(src),
                            status: status@,
                            last_block: response.block,
                        },
                    ),
                )
            },
        },
    }
}

/// A configured link is acceptable if its target is a URL with a host and the scheme `hdfs`.
pub open spec fn acceptable(link: ConfiguredLinkView) -> bool {
    url_of(link.hdfs_url) matches Ok(url) && url.host is Some && url.scheme == "hdfs"@
}

/// The links that are configured as the fallback.
pub open spec fn fallbacks(links: Seq<ConfiguredLinkView>) -> Seq<ConfiguredLinkView> {
    links.filter(|l: ConfiguredLinkView| l.viewfs_path is None)
}

/// The configured links make a mount table exactly if every one of them is acceptable and
/// exactly one is the fallback.
pub proof fn law_table_needs_one_fallback(links: Seq<ConfiguredLinkView>)
    ensures
        viewfs_table(links) is Ok <==> (forall|i: int|
            0 <= i < links.len() ==> (url_of((#[trigger] links[i]).hdfs_url) matches Ok(url)
                && url.host is Some && url.scheme == "hdfs"@)) && links.filter(
            |l: ConfiguredLinkView| l.viewfs_path is None,
        ).len() == 1,
{
    lemma_collected(links);
    assert(fallbacks(links) == links.filter(|l: ConfiguredLinkView| l.viewfs_path is None));
    if forall|i: int|
        0 <= i < links.len() ==> (url_of((#[trigger] links[i]).hdfs_url) matches Ok(url)
            && url.host is Some && url.scheme == "hdfs"@) {
        assert forall|i: int| 0 <= i < links.len() implies acceptable(#[trigger] links[i]) by {}
    }
    if forall|i: int| 0 <= i < links.len() ==> acceptable(#[trigger] links[i]) {
        assert forall|i: int| 0 <= i < links.len() implies (url_of(
            (#[trigger] links[i]).hdfs_url,
        ) matches Ok(url) && url.host is Some && url.scheme == "hdfs"@) by {
            assert(acceptable(links[i]));
        }
    }
}

proof fn lemma_collected(links: Seq<ConfiguredLinkView>)
    ensures
        collected(links) is Ok <==> (forall|i: int|
            0 <= i < links.len() ==> acceptable(#[trigger] links[i])) && fallbacks(links).len()
            <= 1,
        collected(links) matches Ok(table) ==> (table.fallback is Some <==> fallbacks(links).len()
            == 1),
    decreases links.len(),
{
    reveal(Seq::filter);
    if links.len() > 0 {
        let init = links.drop_last();
        let last = links.last();
        lemma_collected(init);
        assert(links[links.len() - 1] == last);
        assert(fallbacks(links) =~= if last.viewfs_path is None {
            fallbacks(init).push(last)
        } else {
            fallbacks(init)
        });
        if forall|i: int| 0 <= i < links.len() ==> acceptable(#[trigger] links[i]) {
            assert forall|i: int| 0 <= i < init.len() implies acceptable(#[trigger] init[i]) by {
                assert(acceptable(links[i]));
            }
        }
        if (forall|i: int| 0 <= i < init.len() ==> acceptable(#[trigger] init[i])) && acceptable(
            last,
        ) {
            assert forall|i: int| 0 <= i < links.len() implies acceptable(#[trigger] links[i]) by {
                if i < init.len() {
                    assert(acceptable(init[i]));
                }
            }
        }
    }
}

/// On the client of a single name service every absolute path stands for itself, and a rename is
/// never refused.
pub proof fn law_single_service_keeps_paths(
    service: NameServiceView,
    a: Seq<char>,
    b: Seq<char>,
)
    requires
        is_absolute(a),
        is_absolute(b),
    ensures
        ({
            let table = single_service_table(service);
            &&& table.covers(a)
            &&& table.link_for(a).protocol == service
            &&& same_path(table.target(a), a)
            &&& same_path(table.link_for(a).viewfs_path, table.link_for(b).viewfs_path)
        }),
{
    let table = single_service_table(service);
    law_absolute_path_is_covered(table, a);
    lemma_root_components();
    law_resolve_replaces_mount_point(table.fallback, a);
    assert(components(a)[0] == seq!['/']);
    assert(seq![seq!['/']] + components(a).skip(1) =~= components(a));
}

/// An append is retried at most once: the reply to the request for a new block is final.
pub proof fn law_append_retries_once<B, D, E>(
    client: Client,
    src: Seq<char>,
    reply: Result<AppendResponse<B, D, E>, HdfsError>,
)
    ensures
        !(appended(client, src, AppendAttempt::NewBlock, reply) is Retry),
{
}

/// The calls that ask to append to the file at `src`, from `call` on, which belongs to `attempt`:
/// each of `replies` answers the next call, as long as one is made.
pub open spec fn append_calls<B, D, E>(
    client: Client,
    src: Seq<char>,
    call: CallView,
    attempt: AppendAttempt,
    replies: Seq<Result<AppendResponse<B, D, E>, HdfsError>>,
) -> Seq<CallView>
    decreases replies.len(),
{
    if replies.len() == 0 {
        seq![call]
    } else {
        match appended(client, src, attempt, replies[0]) {
            AppendStepView::Retry { call: next_call, attempt: next_attempt } => seq![call]
                + append_calls(client, src, next_call, next_attempt, replies.drop_first()),
            _ => seq![call],
        }
    }
}

/// Whatever the replies are, at most two calls ask to append to a file. The first one is to go on
/// with its last block. A second one is made exactly if the reply to the first says that a new
/// block is needed, and asks for it.
pub proof fn law_append_asks_at_most_twice<B, D, E>(
    client: Client,
    src: Seq<char>,
    replies: Seq<Result<AppendResponse<B, D, E>, HdfsError>>,
)
    ensures
        ({
            let first = client.call(
                src,
                RequestView::Append { src: client@.target(src), new_block: false },
            );
            let second = client.call(
                src,
                RequestView::Append { src: client@.target(src), new_block: true },
            );
            append_calls(client, src, first, AppendAttempt::CurrentBlock, replies)
                == if replies.len() > 0 && asks_for_new_block(replies[0]) {
                seq![first, second]
            } else {
                seq![first]
            }
        }),
{
    reveal_with_fuel(append_calls, 2);
    let first = client.call(
        src,
        RequestView::Append { src: client@.target(src), new_block: false },
    );
    let second = client.call(
        src,
        RequestView::Append { src: client@.target(src), new_block: true },
    );
    if replies.len() > 0 && asks_for_new_block(replies[0]) {
        let later = replies.drop_first();
        if later.len() > 0 {
            law_append_retries_once(client, src, later[0]);
        }
        assert(append_calls(client, src, second, AppendAttempt::NewBlock, later) == seq![second]);
        assert(seq![first] + seq![second] =~= seq![first, second]);
    }
}

/// The reply is the error of a NameNode that says that appending needs a new block.
pub open spec fn asks_for_new_block<B, D, E>(
    reply: Result<AppendResponse<B, D, E>, HdfsError>,
) -> bool {
    reply matches Err(HdfsError::RPCError(class, msg)) && new_block_needed(class@, msg@)
}

/// An encrypted file is never opened, neither for reading nor for writing.
pub proof fn law_encrypted_file_is_never_opened<L, S, B, D, E>(
    client: Client,
    path: Seq<char>,
    attempt: AppendAttempt,
    located: LocatedFile<L, S, E>,
    status: HdfsFileStatus<E>,
    response: AppendResponse<B, D, E>,
)
    ensures
        located.status.encrypted ==> reader_for(client@, path, Ok(Some(located))) is Err,
        status.encrypted ==> created::<B, D, E>(client, path, Ok(Some(status))) is Undo,
        (response.stat matches Some(stat) && stat.encrypted) ==> appended(
            client,
            path,
            attempt,
            Ok(response),
        ) is Close,
{
}

/// What is undone of a creation is what was created: the deletion goes to the name service and
/// the path that the request for the new file went to.
pub proof fn law_undo_deletes_what_was_created<B, D, E>(
    client: Client,
    src: Seq<char>,
    request: RequestView,
    reply: Result<Option<HdfsFileStatus<E>>, HdfsError>,
)
    requires
        request is Create,
        request->Create_src == client@.target(src),
    ensures
        created::<B, D, E>(client, src, reply) matches CreateStepView::Undo { call, .. } ==> {
            &&& call.protocol == client.call(src, request).protocol
            &&& call.request == (RequestView::Delete {
                src: request->Create_src,
                recursive: false,
            })
        },
{
}

/// A call goes to the name service of the link for its path, and carries its request unchanged.
pub proof fn law_call_goes_to_link(client: Client, path: Seq<char>, request: RequestView)
    ensures
        client.call(path, request).protocol == client@.link_for(path).protocol,
        client.call(path, request).request == request,
{
}

/// What loading a configuration says is the configuration or the error that came of it; what an
/// optional borrowed string says is its text.
pub proof fn law_inputs_say_what_they_hold(config: Configuration, e: HdfsError, text: &str)
    ensures
        loaded(Ok(config)) == Ok::<ConfigurationView, ErrorView>(config@),
        loaded(Err(e)) == Err::<ConfigurationView, ErrorView>(e@),
        borrowed_text(Some(text)) == Some(text@),
        borrowed_text(None) is None,
{
}

/// The host and the port of an `hdfs` URL decide where every request of its client goes: with a
/// port to the single NameNode at that host and that port, without one to the name service of
/// that name.
pub proof fn law_url_decides_name_service(
    text: Seq<char>,
    url: UrlView,
    config: ConfigurationView,
    res: Result<Client, HdfsError>,
    path: Seq<char>,
)
    requires
        url_of(text) == Ok::<UrlView, UrlError>(url),
        url.scheme == "hdfs"@,
        url.host is Some,
        is_client(res, table_at(text, Ok(config))),
    ensures
        res is Ok,
        url.port matches Some(port) ==> res->Ok_0@.link_for(path).protocol == (
        NameServiceView::NameNode { host: url.host->0, port }),
        url.port is None ==> res->Ok_0@.link_for(path).protocol == (NameServiceView::Named {
            name: url.host->0,
        }),
{
}

/// A `viewfs` URL gets the mount table that is configured under its host.
pub proof fn law_viewfs_url_gets_configured_table(
    text: Seq<char>,
    url: UrlView,
    config: ConfigurationView,
    res: Result<Client, HdfsError>,
)
    requires
        url_of(text) == Ok::<UrlView, UrlError>(url),
        url.scheme == "viewfs"@,
        url.host is Some,
        is_client(res, table_at(text, Ok(config))),
    ensures
        match viewfs_table(links_for(config.mount_tables, url.host->0)) {
            Ok(table) => res matches Ok(client) && client@ == table,
            Err(e) => res matches Err(error) && error@ == e,
        },
{
    reveal_strlit("hdfs");
    reveal_strlit("viewfs");
    assert("hdfs"@.len() != "viewfs"@.len());
}

/// There is no client for a text that is no URL, whatever the configuration is; nor without a
/// configuration; nor for a URL without a host or with another scheme. The first of these that
/// holds is reported.
pub proof fn law_no_client_without_usable_url(
    text: Seq<char>,
    config: Result<ConfigurationView, ErrorView>,
    res: Result<Client, HdfsError>,
)
    requires
        is_client(res, table_at(text, config)),
    ensures
        url_of(text) matches Err(e) ==> (res matches Err(error) && error@
            == ErrorView::UrlParseError(e)),
        url_of(text) matches Ok(url) ==> match config {
            Err(e) => res matches Err(error) && error@ == e,
            Ok(_) => {
                &&& url.host is None ==> (res matches Err(error) && error@
                    == ErrorView::InvalidArgument("URL must contain a host"@))
                &&& url.host is Some && url.scheme != "hdfs"@ && url.scheme != "viewfs"@ ==> (
                res matches Err(error) && error@ == ErrorView::InvalidArgument(
                    "Only `hdfs` and `viewfs` schemes are supported"@,
                ))
            },
        },
{
}

/// The client of the default file system is the client of the URL that `fs.defaultFS` holds.
pub proof fn law_default_client_is_client_of_setting(
    config: Result<ConfigurationView, ErrorView>,
    res: Result<Client, HdfsError>,
)
    requires
        is_client(res, default_table(config)),
    ensures
        match config {
            Err(e) => res matches Err(error) && error@ == e,
            Ok(settings) => match settings.default_fs {
                None => res matches Err(error) && error@ == ErrorView::InvalidArgument(
                    "No fs.defaultFS setting found"@,
                ),
                Some(text) => is_client(res, table_at(text, config)),
            },
        },
{
}

/// Every configured link is in the mount table under its own mount point, with the path, the host
/// and the port of its own URL; the link without a mount point is the fallback, mounted at the
/// root. The table has no other links.
pub proof fn law_configured_links_are_mounted(
    links: Seq<ConfiguredLinkView>,
    i: int,
    url: UrlView,
)
    requires
        viewfs_table(links) is Ok,
        0 <= i < links.len(),
        url_of(links[i].hdfs_url) == Ok::<UrlView, UrlError>(url),
    ensures
        ({
            let table = viewfs_table(links)->Ok_0;
            let place = if url.path.len() == 0 { seq!['/'] } else { url.path };
            let protocol = match url.port {
                Some(port) => NameServiceView::NameNode { host: url.host->0, port },
                None => NameServiceView::Named { name: url.host->0 },
            };
            &&& table.mounts.len() == links.filter(
                |l: ConfiguredLinkView| l.viewfs_path is Some,
            ).len()
            &&& match links[i].viewfs_path {
                Some(prefix) => table.mounts.contains(
                    LinkView {
                        viewfs_path: if prefix.len() == 0 { seq!['/'] } else { prefix },
                        hdfs_path: place,
                        protocol,
                    },
                ),
                None => table.fallback == (LinkView {
                    viewfs_path: seq!['/'],
                    hdfs_path: place,
                    protocol,
                }),
            }
        }),
{
    lemma_collected_links(links, i, url);
    let built = collected(links)->Ok_0;
    let table = viewfs_table(links)->Ok_0;
    law_mount_order_keeps_links(built.mounts);
    broadcast use vstd::seq_lib::group_to_multiset_ensures;

    assert forall|l: LinkView| built.mounts.contains(l) implies table.mounts.contains(l) by {
        assert(table.mounts.to_multiset().count(l) == built.mounts.to_multiset().count(l));
    }
}

/// The links before they are put in order.
proof fn lemma_collected_links(links: Seq<ConfiguredLinkView>, i: int, url: UrlView)
    requires
        collected(links) is Ok,
        0 <= i < links.len(),
        url_of(links[i].hdfs_url) == Ok::<UrlView, UrlError>(url),
    ensures
        ({
            let built = collected(links)->Ok_0;
            let place = if url.path.len() == 0 { seq!['/'] } else { url.path };
            let protocol = match url.port {
                Some(port) => NameServiceView::NameNode { host: url.host->0, port },
                None => NameServiceView::Named { name: url.host->0 },
            };
            &&& built.mounts.len() == links.filter(
                |l: ConfiguredLinkView| l.viewfs_path is Some,
            ).len()
            &&& match links[i].viewfs_path {
                Some(prefix) => built.mounts.contains(
                    LinkView {
                        viewfs_path: if prefix.len() == 0 { seq!['/'] } else { prefix },
                        hdfs_path: place,
                        protocol,
                    },
                ),
                None => built.fallback == Some(
                    LinkView { viewfs_path: seq!['/'], hdfs_path: place, protocol },
                ),
            }
        }),
    decreases links.len(),
{
    let init = links.drop_last();
    let last = links.last();
    let before = collected(init)->Ok_0;
    let built = collected(links)->Ok_0;
    lemma_mounts_counted(links);
    if i == links.len() - 1 {
        if last.viewfs_path is Some {
            assert(built.mounts.last() == built.mounts[built.mounts.len() - 1]);
        }
    } else {
        assert(init[i] == links[i]);
        lemma_collected_links(init, i, url);
        if links[i].viewfs_path is Some {
            let place = if url.path.len() == 0 { seq!['/'] } else { url.path };
            let protocol = match url.port {
                Some(port) => NameServiceView::NameNode { host: url.host->0, port },
                None => NameServiceView::Named { name: url.host->0 },
            };
            let prefix = links[i].viewfs_path->0;
            let link = LinkView {
                viewfs_path: if prefix.len() == 0 { seq!['/'] } else { prefix },
                hdfs_path: place,
                protocol,
            };
            let k = choose|k: int| 0 <= k < before.mounts.len() && before.mounts[k] == link;
            assert(built.mounts[k] == link);
        }
    }
}

/// There is one mount for each configured link with a mount point.
proof fn lemma_mounts_counted(links: Seq<ConfiguredLinkView>)
    requires
        collected(links) is Ok,
    ensures
        collected(links)->Ok_0.mounts.len() == links.filter(
            |l: ConfiguredLinkView| l.viewfs_path is Some,
        ).len(),
    decreases links.len(),
{
    reveal(Seq::filter);
    if links.len() > 0 {
        lemma_mounts_counted(links.drop_last());
    }
}

/// The first configured link that makes no link of a table is reported, whatever comes after it:
/// its target is no URL, has no host, or has another scheme, or it is a second fallback. If there
/// is no such link, only a missing fallback is.
pub proof fn law_first_faulty_link_is_reported(links: Seq<ConfiguredLinkView>, i: int)
    requires
        0 <= i <= links.len(),
        forall|j: int|
            0 <= j < i ==> (url_of((#[trigger] links[j]).hdfs_url) matches Ok(url)
                && url.host is Some && url.scheme == "hdfs"@),
        links.take(i).filter(|l: ConfiguredLinkView| l.viewfs_path is None).len() <= 1,
    ensures
        i < links.len() ==> match url_of(links[i].hdfs_url) {
            Err(e) => viewfs_table(links) == Err::<TableView, ErrorView>(
                ErrorView::UrlParseError(e),
            ),
            Ok(url) => {
                &&& url.host is None ==> viewfs_table(links) == Err::<TableView, ErrorView>(
                    ErrorView::InvalidArgument("URL must contain a host"@),
                )
                &&& url.host is Some && url.scheme != "hdfs"@ ==> viewfs_table(links) == Err::<
                    TableView,
                    ErrorView,
                >(ErrorView::InvalidArgument("Only hdfs mounts are supported for viewfs"@))
                &&& url.host is Some && url.scheme == "hdfs"@ && links[i].viewfs_path is None
                    && links.take(i).filter(|l: ConfiguredLinkView| l.viewfs_path is None).len()
                    == 1 ==> viewfs_table(links) == Err::<TableView, ErrorView>(
                    ErrorView::InvalidArgument("Multiple viewfs fallback links found"@),
                )
            },
        },
        i == links.len() && links.filter(|l: ConfiguredLinkView| l.viewfs_path is None).len() == 0
            ==> viewfs_table(links) == Err::<TableView, ErrorView>(
            ErrorView::InvalidArgument("No viewfs fallback mount found"@),
        ),
{
    let start = links.take(i);
    assert(fallbacks(start) == start.filter(|l: ConfiguredLinkView| l.viewfs_path is None));
    assert forall|j: int| 0 <= j < start.len() implies acceptable(#[trigger] start[j]) by {
        assert(start[j] == links[j]);
    }
    lemma_collected(start);
    if i < links.len() {
        let upto = links.take(i + 1);
        assert(upto.drop_last() =~= start);
        assert(upto.last() == links[i]);
        law_target_is_mounted_as_configured(seq!['/'], url_of(links[i].hdfs_url));
        if collected(upto) is Err {
            lemma_first_error(links, i + 1);
        }
    } else {
        assert(start =~= links);
    }
}

/// On the client of a single name service an absolute path keeps its text behind the root, and
/// its last name in any case.
pub proof fn law_single_service_keeps_text(service: NameServiceView, rest: Seq<char>)
    requires
        rest.len() > 0,
        rest[0] != '/',
        rest.last() != '/',
        rest != seq!['.'],
        !(rest.len() >= 2 && rest[0] == '.' && rest[1] == '/'),
        !(rest.len() >= 2 && rest[rest.len() - 2] == '/' && rest.last() == '.'),
    ensures
        single_service_table(service).target(seq!['/'] + rest) == seq!['/'] + rest,
        single_service_table(service).target(seq!['/']) == seq!['/'],
{
    let table = single_service_table(service);
    law_first_mount_above_path_is_chosen(table, seq!['/'] + rest, 0);
    law_first_mount_above_path_is_chosen(table, seq!['/'], 0);
    law_resolve_keeps_text(table.fallback, seq!['/'], rest);
    crate::mount::law_mount_point_resolves_to_place(table.fallback, seq!['/']);
}

/// On the client of a single name service an absolute path that ends in a name stands for a path
/// that ends in that name.
pub proof fn law_single_service_keeps_last_name(
    service: NameServiceView,
    dir: Seq<char>,
    name: Seq<char>,
)
    requires
        dir.len() == 0 || dir[0] == '/',
        name.len() > 0,
        name != seq!['.'],
        forall|i: int| 0 <= i < name.len() ==> name[i] != '/',
    ensures
        name.is_suffix_of(single_service_table(service).target(dir + seq!['/'] + name)),
{
    let table = single_service_table(service);
    let path = dir + seq!['/'] + name;
    law_first_mount_above_path_is_chosen(table, path, 0);
    lemma_root_components();
    law_name_is_kept(dir, name);
    if dir.len() == 0 {
        assert(path =~= seq!['/'] + name);
    }
    assert(path[0] == '/');
    assert(components(path)[0] == seq!['/']);
    assert(components(path).subrange(0, 1) =~= seq![seq!['/']]);
    if dir.len() > 0 {
        crate::path::lemma_has_component(dir);
    }
    assert(components(path).len() > 1);
    law_resolve_keeps_last_name(table.fallback, dir, name);
}

/// A file that exists, whose erasure coding policy, if any, is supported, and that is neither
/// encrypted nor a directory is opened for reading where its blocks are located. The reader starts
/// from the reported status, locations and schema, at the name service that was asked.
pub proof fn law_located_file_is_read<L, S, E>(
    table: TableView,
    path: Seq<char>,
    file: LocatedFile<L, S, E>,
)
    requires
        !(file.ec_schema matches Some(Err(_))),
        !file.status.encrypted,
        file.status.file_type != FileType::IsDir,
        file.locations is Some,
    ensures
        reader_for(table, path, Ok(Some(file))) matches Ok(reader) && {
            &&& reader.protocol == table.link_for(path).protocol
            &&& reader.status == file.status@
            &&& reader.status.length == file.status.length
            &&& Some(reader.locations) == file.locations
            &&& file.ec_schema is None ==> reader.ec_schema is None
            &&& file.ec_schema matches Some(Ok(schema)) ==> reader.ec_schema == Some(schema)
        },
{
}

/// Why a file is not opened for reading: an error of the request or of the erasure coding policy
/// is passed on; a file that does not exist, is a directory or has no locations is reported under
/// the path that the caller knows.
pub proof fn law_what_is_not_read<L, S, E>(
    table: TableView,
    path: Seq<char>,
    file: LocatedFile<L, S, E>,
    e: HdfsError,
)
    ensures
        reader_for::<L, S, E>(table, path, Err(e)) == Err::<ReaderView<L, S, E>, ErrorView>(e@),
        reader_for::<L, S, E>(table, path, Ok(None)) == Err::<ReaderView<L, S, E>, ErrorView>(
            ErrorView::FileNotFound(path),
        ),
        file.ec_schema matches Some(Err(policy)) ==> reader_for(table, path, Ok(Some(file)))
            == Err::<ReaderView<L, S, E>, ErrorView>(policy@),
        !(file.ec_schema matches Some(Err(_))) ==> {
            &&& file.status.encrypted ==> reader_for(table, path, Ok(Some(file))) == Err::<
                ReaderView<L, S, E>,
                ErrorView,
            >(ErrorView::UnsupportedFeature("File encryption"@))
            &&& !file.status.encrypted && file.status.file_type == FileType::IsDir ==> reader_for(
                table,
                path,
                Ok(Some(file)),
            ) == Err::<ReaderView<L, S, E>, ErrorView>(ErrorView::IsADirectoryError(path))
            &&& !file.status.encrypted && file.status.file_type != FileType::IsDir
                && file.locations is None ==> reader_for(table, path, Ok(Some(file))) == Err::<
                ReaderView<L, S, E>,
                ErrorView,
            >(ErrorView::BlocksNotFound(path))
        },
{
}

/// What the outcome of opening a reader says is the reader or the error.
pub proof fn law_reader_result_says_what_it_holds<L, S, E>(
    reader: OpenReader<L, S, E>,
    e: HdfsError,
)
    ensures
        reader_result(Ok(reader)) == Ok::<ReaderView<L, S, E>, ErrorView>(reader@),
        reader_result::<L, S, E>(Err(e)) == Err::<ReaderView<L, S, E>, ErrorView>(e@),
{
}

/// A new file that is not encrypted is opened for writing, at the name service and the path that
/// were asked, with the reported status and no block yet. A file that was not made and an error
/// are reported.
pub proof fn law_created_file_is_written<B, D, E>(
    client: Client,
    src: Seq<char>,
    status: HdfsFileStatus<E>,
    e: HdfsError,
)
    ensures
        !status.encrypted ==> (created::<B, D, E>(
            client,
            src,
            Ok(Some(status)),
        ) matches CreateStepView::Done(Ok(writer)) && writer.protocol == client@.link_for(
            src,
        ).protocol && writer.path == client@.target(src) && writer.status == status@
            && writer.last_block is None),
        status.encrypted ==> (created::<B, D, E>(
            client,
            src,
            Ok(Some(status)),
        ) matches CreateStepView::Undo { error, .. } && error == ErrorView::UnsupportedFeature(
            "File encryption"@,
        )),
        created::<B, D, E>(client, src, Ok(None)) == CreateStepView::<B, D, E>::Done(
            Err(ErrorView::FileNotFound(src)),
        ),
        created::<B, D, E>(client, src, Err(e)) == CreateStepView::<B, D, E>::Done(Err(e@)),
{
}

/// An append that the NameNode grants succeeds, whether it goes on with the last block or was
/// given a new one: a file that is not encrypted is opened at the name service and the path that
/// were asked, with the reported status and the reported block.
pub proof fn law_granted_append_is_written<B, D, E>(
    client: Client,
    src: Seq<char>,
    attempt: AppendAttempt,
    response: AppendResponse<B, D, E>,
    status: HdfsFileStatus<E>,
)
    requires
        response.stat == Some(status),
        !status.encrypted,
    ensures
        appended(client, src, attempt, Ok(response)) matches AppendStepView::Done(Ok(writer)) && {
            &&& writer.protocol == client@.link_for(src).protocol
            &&& writer.path == client@.target(src)
            &&& writer.status == status@
            &&& writer.last_block == response.block
        },
{
}

/// Why an append does not succeed: the file does not exist; it is encrypted, and is closed again
/// with the reported block and file id; or the request failed and is not repeated.
pub proof fn law_what_is_not_appended_to<B, D, E>(
    client: Client,
    src: Seq<char>,
    attempt: AppendAttempt,
    response: AppendResponse<B, D, E>,
    e: HdfsError,
)
    ensures
        response.stat is None ==> appended(client, src, attempt, Ok(response))
            == AppendStepView::<B, D, E>::Done(Err(ErrorView::FileNotFound(src))),
        response.stat matches Some(status) && status.encrypted ==> (appended(
            client,
            src,
            attempt,
            Ok(response),
        ) matches AppendStepView::Close { protocol, src: path, last, file_id, error } && protocol
            == client@.link_for(src).protocol && path == src && file_id
            == response.stat->0.file_id && (last is Some <==> response.block is Some) && (
        last is Some ==> last->0 == response.block->0.b) && error
            == ErrorView::UnsupportedFeature("File encryption"@)),
        attempt == AppendAttempt::NewBlock || !(e is RPCError) ==> appended::<B, D, E>(
            client,
            src,
            attempt,
            Err(e),
        ) == AppendStepView::<B, D, E>::Done(Err(e@)),
        appended::<B, D, E>(client, src, attempt, Err(e)) matches AppendStepView::Done(r) ==> r
            == Err::<WriterView<B, D, E>, ErrorView>(e@),
{
}

/// A NameNode asks for a new block with an `UnsupportedOperationException` whose message mentions
/// `NEW_BLOCK` somewhere, and with no other error.
pub proof fn law_new_block_is_asked_for(class: Seq<char>, before: Seq<char>, after: Seq<char>)
    ensures
        new_block_needed(class, before + "NEW_BLOCK"@ + after) <==> class
            == "java.lang.UnsupportedOperationException"@,
        forall|msg: Seq<char>| #[trigger]
            new_block_needed(class, msg) ==> class == "java.lang.UnsupportedOperationException"@ && (
            exists|at: int|
                0 <= at && at + "NEW_BLOCK"@.len() <= msg.len() && #[trigger] msg.take(at)
                    + "NEW_BLOCK"@ + msg.skip(at + "NEW_BLOCK"@.len()) == msg),
{
    law_part_is_contained(before, "NEW_BLOCK"@, after);
    assert forall|msg: Seq<char>| #[trigger] new_block_needed(class, msg) implies class
        == "java.lang.UnsupportedOperationException"@ && (exists|at: int|
        0 <= at && at + "NEW_BLOCK"@.len() <= msg.len() && #[trigger] msg.take(at) + "NEW_BLOCK"@
            + msg.skip(at + "NEW_BLOCK"@.len()) == msg) by {
        law_contained_is_part(msg, "NEW_BLOCK"@);
    }
}

/// An error among the first links is the error of all links.
proof fn lemma_first_error(links: Seq<ConfiguredLinkView>, n: int)
    requires
        0 <= n <= links.len(),
        collected(links.take(n)) is Err,
    ensures
        collected(links) == collected(links.take(n)),
    decreases links.len(),
{
    if n < links.len() {
        assert(links.drop_last().take(n) =~= links.take(n));
        lemma_first_error(links.drop_last(), n);
    } else {
        assert(links.take(n) =~= links);
    }
}

} // verus!
