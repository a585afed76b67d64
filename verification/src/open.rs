//! What the replies to the requests that open a file carry, and what an open file starts from.
use vstd::prelude::*;

use crate::address::{NameService, NameServiceView};
use crate::error::{ErrorView, HdfsError};
use crate::rpc::{CallView, RpcCall};
use crate::status::{EntryView, HdfsFileStatus};
use std::sync::Arc;

verus! {

/// A file whose blocks were located: its status, its erasure coding schema if it has an erasure
/// coding policy (or why that policy has no schema), and the locations of its blocks.
#[derive(Debug)]
pub struct LocatedFile<L, S, E> {
    pub status: HdfsFileStatus<E>,
    pub ec_schema: Option<Result<S, HdfsError>>,
    pub locations: Option<L>,
}

/// What a reader of a file starts from.
#[derive(Debug)]
pub struct OpenReader<L, S, E> {
    pub protocol: Arc<NameService>,
    pub status: HdfsFileStatus<E>,
    pub locations: L,
    pub ec_schema: Option<S>,
}

/// What the start of a reader says.
pub struct ReaderView<L, S, E> {
    pub protocol: NameServiceView,
    pub status: EntryView<E>,
    pub locations: L,
    pub ec_schema: Option<S>,
}

impl<L, S, E> View for OpenReader<L, S, E> {
    type V = ReaderView<L, S, E>;

    open spec fn view(&self) -> ReaderView<L, S, E> {
        ReaderView {
            protocol: self.protocol@,
            status: self.status@,
            locations: self.locations,
            ec_schema: self.ec_schema,
        }
    }
}

/// A block and where it is stored.
#[derive(Debug)]
pub struct LocatedBlock<B, D> {
    pub b: B,
    pub details: D,
}

/// What a writer of a file starts from.
#[derive(Debug)]
pub struct OpenWriter<B, D, E> {
    pub protocol: Arc<NameService>,
    /// The path on the name service.
    pub path: String,
    pub status: HdfsFileStatus<E>,
    /// The block to go on with, if any.
    pub last_block: Option<LocatedBlock<B, D>>,
}

/// What the start of a writer says.
pub struct WriterView<B, D, E> {
    pub protocol: NameServiceView,
    pub path: Seq<char>,
    pub status: EntryView<E>,
    pub last_block: Option<LocatedBlock<B, D>>,
}

impl<B, D, E> View for OpenWriter<B, D, E> {
    type V = WriterView<B, D, E>;

    open spec fn view(&self) -> WriterView<B, D, E> {
        WriterView {
            protocol: self.protocol@,
            path: self.path@,
            status: self.status@,
            last_block: self.last_block,
        }
    }
}

/// What follows the reply to a request to create a file.
#[derive(Debug)]
pub enum CreateStep<B, D, E> {
    Done(Result<OpenWriter<B, D, E>, HdfsError>),
    /// The file must not stay: make the call, ignore its outcome, and fail with the error.
    Undo { call: RpcCall, error: HdfsError },
}

/// What such a step says.
pub enum CreateStepView<B, D, E> {
    Done(Result<WriterView<B, D, E>, ErrorView>),
    Undo { call: CallView, error: ErrorView },
}

/// What the outcome of opening a writer says.
pub open spec fn writer_result<B, D, E>(res: Result<OpenWriter<B, D, E>, HdfsError>) -> Result<
    WriterView<B, D, E>,
    ErrorView,
> {
    match res {
        Ok(writer) => Ok(writer@),
        Err(e) => Err(e@),
    }
}

impl<B, D, E> View for CreateStep<B, D, E> {
    type V = CreateStepView<B, D, E>;

    open spec fn view(&self) -> CreateStepView<B, D, E> {
        match *self {
            CreateStep::Done(res) => CreateStepView::Done(writer_result(res)),
            CreateStep::Undo { call, error } => CreateStepView::Undo {
                call: call@,
                error: error@,
            },
        }
    }
}

/// The reply to a request to append to a file.
#[derive(Debug)]
pub struct AppendResponse<B, D, E> {
    pub block: Option<LocatedBlock<B, D>>,
    pub stat: Option<HdfsFileStatus<E>>,
}

/// Which request to append a reply belongs to.
#[derive(Clone, Copy, Debug, PartialEq, Eq, Structural)]
pub enum AppendAttempt {
    /// To go on with the last block of the file.
    CurrentBlock,
    /// To start a new block.
    NewBlock,
}

/// The call that closes a file which was opened in vain.
#[derive(Debug)]
pub struct CompleteCall<B> {
    pub protocol: Arc<NameService>,
    pub src: String,
    pub last: Option<B>,
    pub file_id: Option<u64>,
}

/// What follows the reply to a request to append to a file.
#[derive(Debug)]
#[allow(inconsistent_fields)]
pub enum AppendStep<B, D, E> {
    Done(Result<OpenWriter<B, D, E>, HdfsError>),
    /// Make the call, which is another request to append; its reply belongs to `attempt`.
    Retry { call: RpcCall, attempt: AppendAttempt },
    /// The file must not stay open: make the call, ignore its outcome, and fail with the error.
    Close { call: CompleteCall<B>, error: HdfsError },
}

/// What such a step says.
pub enum AppendStepView<B, D, E> {
    Done(Result<WriterView<B, D, E>, ErrorView>),
    Retry { call: CallView, attempt: AppendAttempt },
    Close {
        protocol: NameServiceView,
        src: Seq<char>,
        last: Option<B>,
        file_id: Option<u64>,
        error: ErrorView,
    },
}

impl<B, D, E> View for AppendStep<B, D, E> {
    type V = AppendStepView<B, D, E>;

    open spec fn view(&self) -> AppendStepView<B, D, E> {
        match *self {
            AppendStep::Done(res) => AppendStepView::Done(writer_result(res)),
            AppendStep::Retry { call, attempt } => AppendStepView::Retry {
                call: call@,
                attempt,
            },
            AppendStep::Close { call, error } => AppendStepView::Close {
                protocol: call.protocol@,
                src: call.src@,
                last: call.last,
                file_id: call.file_id,
                error: error@,
            },
        }
    }
}

/// What the start of a reader says is what the reader starts from.
pub proof fn law_reader_says_what_it_holds<L, S, E>(reader: OpenReader<L, S, E>)
    ensures
        reader@.protocol == reader.protocol@,
        reader@.status == reader.status@,
        reader@.locations == reader.locations,
        reader@.ec_schema == reader.ec_schema,
{
}

/// What the start of a writer says is what the writer starts from.
pub proof fn law_writer_says_what_it_holds<B, D, E>(writer: OpenWriter<B, D, E>, e: HdfsError)
    ensures
        writer@.protocol == writer.protocol@,
        writer@.path == writer.path@,
        writer@.status == writer.status@,
        writer@.last_block == writer.last_block,
        writer_result(Ok(writer)) == Ok::<WriterView<B, D, E>, ErrorView>(writer@),
        writer_result::<B, D, E>(Err(e)) == Err::<WriterView<B, D, E>, ErrorView>(e@),
{
}

/// What a step of a creation says is what is to be done.
pub proof fn law_create_step_says_what_it_holds<B, D, E>(step: CreateStep<B, D, E>)
    ensures
        match step {
            CreateStep::Done(res) => step@ == CreateStepView::Done(writer_result(res)),
            CreateStep::Undo { call, error } => step@ == (CreateStepView::<B, D, E>::Undo {
                call: call@,
                error: error@,
            }),
        },
{
}

/// What a step of an append says is what is to be done.
pub proof fn law_append_step_says_what_it_holds<B, D, E>(step: AppendStep<B, D, E>)
    ensures
        match step {
            AppendStep::Done(res) => step@ == AppendStepView::Done(writer_result(res)),
            AppendStep::Retry { call, attempt } => step@ == (AppendStepView::<B, D, E>::Retry {
                call: call@,
                attempt,
            }),
            AppendStep::Close { call, error } => step@ == (AppendStepView::<B, D, E>::Close {
                protocol: call.protocol@,
                src: call.src@,
                last: call.last,
                file_id: call.file_id,
                error: error@,
            }),
        },
{
}

} // verus!
