//! The errors of the client.
use vstd::prelude::*;

verus! {

/// Why a text is not a URL.
#[derive(Clone, Copy, Debug, PartialEq, Eq, Structural)]
pub enum UrlError {
    EmptyHost,
    IdnaError,
    InvalidPort,
    InvalidIpv4Address,
    InvalidIpv6Address,
    InvalidDomainCharacter,
    RelativeUrlWithoutBase,
    Overflow,
    Other,
}

/// An error of a client operation.
#[derive(Debug)]
pub enum HdfsError {
    InvalidArgument(String),
    UrlParseError(UrlError),
    FileNotFound(String),
    BlocksNotFound(String),
    IsADirectoryError(String),
    UnsupportedFeature(String),
    /// The exception class and the message that a NameNode answered with.
    RPCError(String, String),
    /// A failure of configuration loading, of the transport or of another part of the client.
    External(String),
}

/// What an error says.
pub enum ErrorView {
    InvalidArgument(Seq<char>),
    UrlParseError(UrlError),
    FileNotFound(Seq<char>),
    BlocksNotFound(Seq<char>),
    IsADirectoryError(Seq<char>),
    UnsupportedFeature(Seq<char>),
    RPCError(Seq<char>, Seq<char>),
    External(Seq<char>),
}

impl View for HdfsError {
    type V = ErrorView;

    open spec fn view(&self) -> ErrorView {
        match *self {
            HdfsError::InvalidArgument(m) => ErrorView::InvalidArgument(m@),
            HdfsError::UrlParseError(e) => ErrorView::UrlParseError(e),
            HdfsError::FileNotFound(p) => ErrorView::FileNotFound(p@),
            HdfsError::BlocksNotFound(p) => ErrorView::BlocksNotFound(p@),
            HdfsError::IsADirectoryError(p) => ErrorView::IsADirectoryError(p@),
            HdfsError::UnsupportedFeature(m) => ErrorView::UnsupportedFeature(m@),
            HdfsError::RPCError(class, m) => ErrorView::RPCError(class@, m@),
            HdfsError::External(m) => ErrorView::External(m@),
        }
    }
}

/// What an error says is what it holds: its kind, and the text with it.
pub proof fn law_error_says_what_it_holds(a: String, b: String, e: UrlError)
    ensures
        HdfsError::InvalidArgument(a)@ == ErrorView::InvalidArgument(a@),
        HdfsError::UrlParseError(e)@ == ErrorView::UrlParseError(e),
        HdfsError::FileNotFound(a)@ == ErrorView::FileNotFound(a@),
        HdfsError::BlocksNotFound(a)@ == ErrorView::BlocksNotFound(a@),
        HdfsError::IsADirectoryError(a)@ == ErrorView::IsADirectoryError(a@),
        HdfsError::UnsupportedFeature(a)@ == ErrorView::UnsupportedFeature(a@),
        HdfsError::RPCError(a, b)@ == ErrorView::RPCError(a@, b@),
        HdfsError::External(a)@ == ErrorView::External(a@),
{
}

/// The error for an argument that the client does not accept.
pub(crate) fn invalid_argument(message: &str) -> (res: HdfsError)
    ensures
        res@ == ErrorView::InvalidArgument(message@),
{
    HdfsError::InvalidArgument(message.to_string())
}

} // verus!
