//! Errors reported by the front end of the language.
use vstd::prelude::*;
use vstd::string::StringExecFns;

verus! {

/// A half-open range of byte offsets into a source text.
#[derive(Debug, Clone, Copy, PartialEq, Eq, Structural)]
pub struct Span {
    pub start: usize,
    pub end: usize,
}

/// Errors of the lexer.
#[derive(Debug, Clone, Copy, PartialEq, Eq, Structural)]
pub enum LexerError {
    UnterminatedString,
}

/// Errors of the parser.
#[derive(Debug)]
pub enum ParserError {
    UnexpectedToken(String),
    InvalidType(String),
    UnexpectedEndOfInput,
    InvalidUsage(String),
}

/// Errors raised while a program runs, each with a message.
#[derive(Debug)]
pub enum RuntimeError {
    InvalidType(String),
    Custom(String),
    VariableNotFound(String),
    NoSuchProperty(String),
    OperationNotSupported(String),
}

/// The text of a runtime error: its kind in brackets, a space, its message.
pub open spec fn runtime_error_text(e: RuntimeError) -> Seq<char> {
    match e {
        RuntimeError::InvalidType(m) => "[InvalidType] "@ + m@,
        RuntimeError::Custom(m) => "[CustomError] "@ + m@,
        RuntimeError::VariableNotFound(m) => "[VariableNotFound] "@ + m@,
        RuntimeError::NoSuchProperty(m) => "[NoSuchProperty] "@ + m@,
        RuntimeError::OperationNotSupported(m) => "[OperationNotSupported] "@ + m@,
    }
}

impl RuntimeError {
    /// The text of the error, as it is shown to the user.
    pub fn to_string(&self) -> (r: String)
        ensures
            r@ == runtime_error_text(*self),
    {
        let (label, message) = match self {
            RuntimeError::InvalidType(m) => ("[InvalidType] ", m),
            RuntimeError::Custom(m) => ("[CustomError] ", m),
            RuntimeError::VariableNotFound(m) => ("[VariableNotFound] ", m),
            RuntimeError::NoSuchProperty(m) => ("[NoSuchProperty] ", m),
            RuntimeError::OperationNotSupported(m) => ("[OperationNotSupported] ", m),
        };
        let mut r = label.to_owned();
        r.append(message.as_str());
        r
    }
}

/// Errors of the module loader.
#[derive(Debug)]
pub enum LoaderError {
    ModuleNotFound(String),
    ImportNotFound(String),
    BoundsViolation(String),
    TODO,
}

/// The kind of a language error, by the stage that raised it.
#[derive(Debug)]
pub enum ErrorKind {
    Lexer(LexerError),
    Parser(ParserError),
    Loader(LoaderError),
    Runtime(RuntimeError),
    Translator(TranslatorError),
}

/// Errors of the translator.
#[derive(Debug)]
pub enum TranslatorError {
    UnknownVariable(String),
    TODO(String),
}

/// An error together with the place in the source where it arose, if known.
#[derive(Debug)]
pub struct LanguageError {
    pub kind: ErrorKind,
    pub source: Option<Span>,
}

pub type LanguageResult<T> = Result<T, LanguageError>;

impl LanguageError {
    /// An error located at the byte range `start..end`.
    pub fn with_source(kind: ErrorKind, start: usize, end: usize) -> (r: LanguageError)
        ensures
            r.kind == kind,
            r.source == Some(Span { start, end }),
    {
        LanguageError { kind, source: Some(Span { start, end }) }
    }

    /// An error without a location.
    pub fn from(kind: ErrorKind) -> (r: LanguageError)
        ensures
            r.kind == kind,
            r.source.is_none(),
    {
        LanguageError { kind, source: None }
    }
}

} // verus!
