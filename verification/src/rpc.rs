//! The requests that a client sends to a name service, and the replies to them.
use vstd::prelude::*;

use crate::address::{NameService, NameServiceView};
use crate::error::{ErrorView, HdfsError};
use crate::status::{EntryView, HdfsFileStatus};
use crate::text::optional_text;
use std::sync::Arc;

verus! {

/// A request to a NameNode. Paths are paths of its name service.
#[derive(Debug)]
#[allow(inconsistent_fields)]
pub enum Request {
    GetFileInfo { src: String },
    GetLocatedFileInfo { src: String },
    GetListing { src: String, start_after: Vec<u8>, need_location: bool },
    Create {
        src: String,
        permission: u32,
        overwrite: bool,
        create_parent: bool,
        replication: Option<u32>,
        block_size: Option<u64>,
    },
    Append { src: String, new_block: bool },
    Mkdirs { src: String, permission: u32, create_parent: bool },
    Rename { src: String, dst: String, overwrite: bool },
    Delete { src: String, recursive: bool },
    SetTimes { src: String, mtime: u64, atime: u64 },
    SetOwner { src: String, owner: Option<String>, group: Option<String> },
    SetPermission { src: String, permission: u32 },
    SetReplication { src: String, replication: u32 },
    GetContentSummary { src: String },
}

/// What a request says.
#[allow(inconsistent_fields)]
pub enum RequestView {
    GetFileInfo { src: Seq<char> },
    GetLocatedFileInfo { src: Seq<char> },
    GetListing { src: Seq<char>, start_after: Seq<u8>, need_location: bool },
    Create {
        src: Seq<char>,
        permission: u32,
        overwrite: bool,
        create_parent: bool,
        replication: Option<u32>,
        block_size: Option<u64>,
    },
    Append { src: Seq<char>, new_block: bool },
    Mkdirs { src: Seq<char>, permission: u32, create_parent: bool },
    Rename { src: Seq<char>, dst: Seq<char>, overwrite: bool },
    Delete { src: Seq<char>, recursive: bool },
    SetTimes { src: Seq<char>, mtime: u64, atime: u64 },
    SetOwner { src: Seq<char>, owner: Option<Seq<char>>, group: Option<Seq<char>> },
    SetPermission { src: Seq<char>, permission: u32 },
    SetReplication { src: Seq<char>, replication: u32 },
    GetContentSummary { src: Seq<char> },
}

impl View for Request {
    type V = RequestView;

    open spec fn view(&self) -> RequestView {
        match *self {
            Request::GetFileInfo { src } => RequestView::GetFileInfo { src: src@ },
            Request::GetLocatedFileInfo { src } => RequestView::GetLocatedFileInfo { src: src@ },
            Request::GetListing { src, start_after, need_location } => RequestView::GetListing {
                src: src@,
                start_after: start_after@,
                need_location,
            },
            Request::Create {
                src,
                permission,
                overwrite,
                create_parent,
                replication,
                block_size,
            } => RequestView::Create {
                src: src@,
                permission,
                overwrite,
                create_parent,
                replication,
                block_size,
            },
            Request::Append { src, new_block } => RequestView::Append { src: src@, new_block },
            Request::Mkdirs { src, permission, create_parent } => RequestView::Mkdirs {
                src: src@,
                permission,
                create_parent,
            },
            Request::Rename { src, dst, overwrite } => RequestView::Rename {
                src: src@,
                dst: dst@,
                overwrite,
            },
            Request::Delete { src, recursive } => RequestView::Delete { src: src@, recursive },
            Request::SetTimes { src, mtime, atime } => RequestView::SetTimes {
                src: src@,
                mtime,
                atime,
            },
            Request::SetOwner { src, owner, group } => RequestView::SetOwner {
                src: src@,
                owner: optional_text(owner),
                group: optional_text(group),
            },
            Request::SetPermission { src, permission } => RequestView::SetPermission {
                src: src@,
                permission,
            },
            Request::SetReplication { src, replication } => RequestView::SetReplication {
                src: src@,
                replication,
            },
            Request::GetContentSummary { src } => RequestView::GetContentSummary { src: src@ },
        }
    }
}

/// What a request says is what it asks for, each part under its own name.
pub proof fn law_request_says_what_it_holds(request: Request)
    ensures
        match request {
            Request::GetFileInfo { src } => request@ == (RequestView::GetFileInfo { src: src@ }),
            Request::GetLocatedFileInfo { src } => request@ == (RequestView::GetLocatedFileInfo {
                src: src@,
            }),
            Request::GetListing { src, start_after, need_location } => request@ == (
            RequestView::GetListing { src: src@, start_after: start_after@, need_location }),
            Request::Create {
                src,
                permission,
                overwrite,
                create_parent,
                replication,
                block_size,
            } => request@ == (RequestView::Create {
                src: src@,
                permission,
                overwrite,
                create_parent,
                replication,
                block_size,
            }),
            Request::Append { src, new_block } => request@ == (RequestView::Append {
                src: src@,
                new_block,
            }),
            Request::Mkdirs { src, permission, create_parent } => request@ == (
            RequestView::Mkdirs { src: src@, permission, create_parent }),
            Request::Rename { src, dst, overwrite } => request@ == (RequestView::Rename {
                src: src@,
                dst: dst@,
                overwrite,
            }),
            Request::Delete { src, recursive } => request@ == (RequestView::Delete {
                src: src@,
                recursive,
            }),
            Request::SetTimes { src, mtime, atime } => request@ == (RequestView::SetTimes {
                src: src@,
                mtime,
                atime,
            }),
            Request::SetOwner { src, owner, group } => request@ == (RequestView::SetOwner {
                src: src@,
                owner: match owner {
                    Some(text) => Some(text@),
                    None => None,
                },
                group: match group {
                    Some(text) => Some(text@),
                    None => None,
                },
            }),
            Request::SetPermission { src, permission } => request@ == (
            RequestView::SetPermission { src: src@, permission }),
            Request::SetReplication { src, replication } => request@ == (
            RequestView::SetReplication { src: src@, replication }),
            Request::GetContentSummary { src } => request@ == (RequestView::GetContentSummary {
                src: src@,
            }),
        },
{
}

/// What a call says is its name service and its request.
pub proof fn law_call_says_what_it_holds(call: RpcCall)
    ensures
        call@.protocol == call.protocol@,
        call@.request == call.request@,
{
}

/// A request and the name service that it goes to.
#[derive(Debug)]
pub struct RpcCall {
    pub protocol: Arc<NameService>,
    pub request: Request,
}

/// What a call says.
pub struct CallView {
    pub protocol: NameServiceView,
    pub request: RequestView,
}

impl View for RpcCall {
    type V = CallView;

    open spec fn view(&self) -> CallView {
        CallView { protocol: self.protocol@, request: self.request@ }
    }
}

/// One page of a directory listing.
#[derive(Debug)]
pub struct DirectoryListing {
    pub partial_listing: Vec<HdfsFileStatus>,
    /// How many entries of the directory come after this page.
    pub remaining_entries: u32,
}

/// What a list of reported entries says.
pub open spec fn entry_views(entries: Seq<HdfsFileStatus>) -> Seq<EntryView> {
    entries.map_values(|e: HdfsFileStatus| e@)
}

/// What a page says.
#[verifier::ext_equal]
pub struct PageView {
    pub entries: Seq<EntryView>,
    pub remaining: u32,
}

impl View for DirectoryListing {
    type V = PageView;

    open spec fn view(&self) -> PageView {
        PageView { entries: entry_views(self.partial_listing@), remaining: self.remaining_entries }
    }
}

/// The reply to a request for a page; no page means that the directory does not exist.
pub type ListingReply = Result<Option<DirectoryListing>, HdfsError>;

/// What the reply to a request for a page says.
pub type PageReply = Result<Option<PageView>, ErrorView>;

pub open spec fn page_reply(reply: ListingReply) -> PageReply {
    match reply {
        Ok(Some(page)) => Ok(Some(page@)),
        Ok(None) => Ok(None),
        Err(e) => Err(e@),
    }
}

/// What a page says is its entries, each in its place, and how many come after them; what a reply
/// says is its page, that there is none, or its error.
pub proof fn law_page_says_what_it_holds(page: DirectoryListing, e: HdfsError)
    ensures
        page@.entries.len() == page.partial_listing@.len(),
        forall|i: int| 0 <= i < page.partial_listing@.len() ==> page@.entries[i] == (
        #[trigger] page.partial_listing@[i])@,
        page@.remaining == page.remaining_entries,
        page_reply(Ok(Some(page))) == Ok::<Option<PageView>, ErrorView>(Some(page@)),
        page_reply(Ok(None)) == Ok::<Option<PageView>, ErrorView>(None),
        page_reply(Err(e)) == Err::<Option<PageView>, ErrorView>(e@),
{
}

} // verus!
