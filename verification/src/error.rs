//! The caller-facing error value.
//!
//! Every parse failure, and an explicit help request, is surfaced as one
//! [`Error`] carrying a display message and a flag that tells the two apart.

use vstd::prelude::*;
use crate::bytes::push_all;
use crate::grammar::TypeTag;

verus! {

/// One parse failure, or a help request, as structured data.
///
/// Byte-string payloads name the offending token or the switch/positional
/// concerned; a help request carries the resolved command path so the
/// reporter can render the right node's help.
#[derive(Debug)]
pub enum ParseError {
    /// A switch token matched nothing visible at the resolved path.
    UnknownSwitch { token: Vec<u8> },
    /// A bare token had no positional slot and named no subcommand.
    UnexpectedArgument { token: Vec<u8> },
    /// A value-taking switch had neither an inline value nor a following
    /// bare token.
    MissingValue { switch: Vec<u8> },
    /// A non-repeated switch occurred twice.
    DuplicateSwitch { switch: Vec<u8> },
    /// A required switch or positional never received a value; at the end
    /// of input, a command with children, none selectable, reports its
    /// subcommand the same way.
    MissingRequired { name: Vec<u8> },
    /// A supplied value could not be converted to its declared type.
    TypeConversionFailure { name: Vec<u8>, raw: Vec<u8>, tag: TypeTag },
    /// Not a failure: help was requested at the command path carried here.
    HelpRequested { path: Vec<usize> },
}

/// The specification-level twin of [`ParseError`].
pub ghost enum ErrS {
    UnknownSwitch { token: Seq<u8> },
    UnexpectedArgument { token: Seq<u8> },
    MissingValue { switch: Seq<u8> },
    DuplicateSwitch { switch: Seq<u8> },
    MissingRequired { name: Seq<u8> },
    TypeConversionFailure { name: Seq<u8>, raw: Seq<u8>, tag: TypeTag },
    HelpRequested { path: Seq<usize> },
}

impl View for ParseError {
    type V = ErrS;

    open spec fn view(&self) -> ErrS {
        match self {
            ParseError::UnknownSwitch { token } => ErrS::UnknownSwitch { token: token@ },
            ParseError::UnexpectedArgument { token } => ErrS::UnexpectedArgument {
                token: token@,
            },
            ParseError::MissingValue { switch } => ErrS::MissingValue { switch: switch@ },
            ParseError::DuplicateSwitch { switch } => ErrS::DuplicateSwitch {
                switch: switch@,
            },
            ParseError::MissingRequired { name } => ErrS::MissingRequired { name: name@ },
            ParseError::TypeConversionFailure { name, raw, tag } => ErrS::TypeConversionFailure {
                name: name@,
                raw: raw@,
                tag: *tag,
            },
            ParseError::HelpRequested { path } => ErrS::HelpRequested { path: path@ },
        }
    }
}

/// What an [`Error`] looks like in specifications: its message bytes and
/// whether it stands for a help request rather than a failure.
pub ghost struct ErrorView {
    pub msg: Seq<u8>,
    pub help: bool,
}

/// An error produced while parsing command line arguments.
///
/// Either the command line was invalid, or help was explicitly requested;
/// [`Error::is_help`] tells the two apart.
pub struct Error {
    msg: Vec<u8>,
    help: bool,
}

impl View for Error {
    type V = ErrorView;

    closed spec fn view(&self) -> ErrorView {
        ErrorView { msg: self.msg@, help: self.help }
    }
}

impl Error {
    /// Creates a new `Error` from a given message.
    ///
    /// Use this to report custom validation errors.
    pub fn new(message: Vec<u8>) -> (r: Error)
        ensures
            r@.msg == message@,
            !r@.help,
    {
        Error { msg: message, help: false }
    }

    /// Creates an `Error` that carries rendered help text.
    pub fn new_help(message: Vec<u8>) -> (r: Error)
        ensures
            r@.msg == message@,
            r@.help,
    {
        Error { msg: message, help: true }
    }

    /// Error that carries a help message.
    pub fn is_help(&self) -> (r: bool)
        ensures
            r == self@.help,
    {
        self.help
    }

    /// Appends to the contained message.
    pub fn chain(self, msg: &Vec<u8>) -> (r: Error)
        ensures
            r@.msg == self@.msg + msg@,
            r@.help == self@.help,
    {
        let Error { msg: mut m, help } = self;
        push_all(&mut m, msg);
        Error { msg: m, help }
    }

    /// The display message, as bytes.
    pub fn message(&self) -> (r: &Vec<u8>)
        ensures
            r@ == self@.msg,
    {
        &self.msg
    }
}

} // verus!
