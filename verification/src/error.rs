//! The errors of the chain, their messages, and the cause chain that is
//! shown to the operator.

use vstd::prelude::*;
use vstd::string::*;

verus! {

/// What can go wrong with a block, the chain or the store.
#[derive(Debug)]
pub enum BlockchainError {
    /// The block with this hash has a wrong link or a wrong hash.
    BlockInvalid(String),
    /// The walk over the chain failed, for the reason inside.
    ChainInvalid(Box<BlockchainError>),
    /// No block with this hash is stored.
    BlockNotFound(String),
    /// Input or output failed; the text says how.
    IoError(String),
    /// The store refused an operation; the text says why.
    DatabaseError(String),
    /// Anything else, in words.
    Error(String),
}

/// An error as plain values.
pub enum ErrorView {
    BlockInvalid(Seq<char>),
    ChainInvalid(Box<ErrorView>),
    BlockNotFound(Seq<char>),
    IoError(Seq<char>),
    DatabaseError(Seq<char>),
    Error(Seq<char>),
}

impl BlockchainError {
    /// The error as plain values.
    pub open spec fn plain(self) -> ErrorView
        decreases self,
    {
        match self {
            BlockchainError::BlockInvalid(hash) => ErrorView::BlockInvalid(hash@),
            BlockchainError::ChainInvalid(cause) => ErrorView::ChainInvalid(
                Box::new((*cause).plain()),
            ),
            BlockchainError::BlockNotFound(hash) => ErrorView::BlockNotFound(hash@),
            BlockchainError::IoError(text) => ErrorView::IoError(text@),
            BlockchainError::DatabaseError(text) => ErrorView::DatabaseError(text@),
            BlockchainError::Error(text) => ErrorView::Error(text@),
        }
    }
}

impl View for BlockchainError {
    type V = ErrorView;

    open spec fn view(&self) -> ErrorView {
        self.plain()
    }
}

impl ErrorView {
    /// The one-line message of the error.
    pub open spec fn message(self) -> Seq<char> {
        match self {
            ErrorView::ChainInvalid(_) => "blockchain invalid."@,
            ErrorView::BlockInvalid(hash) => "block invalid: "@ + hash,
            ErrorView::BlockNotFound(hash) => "block not found: "@ + hash,
            ErrorView::Error(text) => "error: "@ + text,
            ErrorView::DatabaseError(text) => text,
            ErrorView::IoError(text) => text,
        }
    }

    /// The error that this one wraps, if it wraps one.
    pub open spec fn source(self) -> Option<ErrorView> {
        match self {
            ErrorView::ChainInvalid(cause) => Some(*cause),
            _ => None,
        }
    }

    /// One `Caused by:` entry for each error wrapped below this one,
    /// outermost first.
    pub open spec fn causes_text(self) -> Seq<char>
        decreases self,
    {
        match self {
            ErrorView::ChainInvalid(cause) => "Caused by:\n\t"@ + cause.message() + "\n"@
                + cause.causes_text(),
            _ => Seq::empty(),
        }
    }

    /// The cause chain: the message, an empty line, then the causes.
    pub open spec fn chain_text(self) -> Seq<char> {
        self.message() + "\n\n"@ + self.causes_text()
    }
}

impl BlockchainError {
    /// The one-line message of the error.
    pub fn message(&self) -> (text: String)
        ensures
            text@ == self@.message(),
    {
        match self {
            BlockchainError::ChainInvalid(_) => String::from_str("blockchain invalid."),
            BlockchainError::BlockInvalid(hash) => String::from_str("block invalid: ").concat(
                hash.as_str(),
            ),
            BlockchainError::BlockNotFound(hash) => String::from_str("block not found: ").concat(
                hash.as_str(),
            ),
            BlockchainError::Error(text) => String::from_str("error: ").concat(text.as_str()),
            BlockchainError::DatabaseError(text) => text.clone(),
            BlockchainError::IoError(text) => text.clone(),
        }
    }

    /// The error that this one wraps, if it wraps one.
    pub fn source(&self) -> (cause: Option<&BlockchainError>)
        ensures
            match cause {
                Some(inner) => self@.source() == Some(inner@),
                None => self@.source() is None,
            },
    {
        match self {
            BlockchainError::ChainInvalid(cause) => Some(&**cause),
            _ => None,
        }
    }

    /// The failure of a chain walk, for the reason `cause`.
    pub fn chain_invalid(cause: BlockchainError) -> (e: BlockchainError)
        ensures
            e@ == ErrorView::ChainInvalid(Box::new(cause@)),
    {
        BlockchainError::ChainInvalid(Box::new(cause))
    }

    /// The free-form error with the text `text`.
    pub fn other(text: &str) -> (e: BlockchainError)
        ensures
            e@ == ErrorView::Error(text@),
    {
        BlockchainError::Error(String::from_str(text))
    }

    fn causes(&self) -> (text: String)
        ensures
            text@ == self@.causes_text(),
        decreases self,
    {
        match self {
            BlockchainError::ChainInvalid(cause) => {
                let mut text = String::from_str("Caused by:\n\t");
                text.append(cause.message().as_str());
                text.append("\n");
                text.append(cause.causes().as_str());
                text
            },
            _ => String::new(),
        }
    }
}

/// Renders an error as a cause chain: its message, an empty line, then
/// `Caused by:` and the message of each wrapped error, outermost first.
pub fn error_chain_fmt(e: &BlockchainError) -> (text: String)
    ensures
        text@ == e@.chain_text(),
{
    let mut text = e.message();
    text.append("\n\n");
    text.append(e.causes().as_str());
    text
}

} // verus!
