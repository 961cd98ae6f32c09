//! The library's errors: a closed set of kinds, each with the text that
//! gives its context, and the display item that reports one.

use vstd::prelude::*;
use vstd::string::*;
use crate::item::DisplayItem;
use crate::item::DisplayItemView;
use crate::item::copy_opt;
use crate::item::text_opt;

verus! {

/// What went wrong.
#[derive(Clone, Copy, Debug, PartialEq, Eq, Structural)]
pub enum ErrorKind {
    /// The index could not be built or read.
    Fst,
    /// The regular expression was refused.
    Regex,
    /// The edit-distance automaton was refused.
    Levenshtein,
    /// A URL could not be parsed.
    ParseURL,
    /// An icon file could not be written.
    WriteIcon,
    /// A path of the icon directory could not be read.
    Glob,
    /// A file name pattern was refused.
    ParsePattern,
    /// An icon was downloaded, and it was empty.
    EmptyIcon,
    /// No icon was found for a domain.
    NoIcon,
    /// The type of an icon could not be told.
    NoMimetype,
}

/// An error: its kind, the context (the domain for the three icon kinds,
/// the message of the lower-level error for the others), and the message of
/// what caused the lower-level error, where it names one.
#[derive(Debug)]
pub struct HistoryError {
    pub kind: ErrorKind,
    pub context: String,
    pub cause: Option<String>,
}

pub const EMPTY_ICON: &'static str = "An empty icon was downloaded";

pub const NO_ICON: &'static str = "No icon was found";

pub const NO_MIMETYPE: &'static str = "The icon has no detected mimetype";

pub const FST_FAILED: &'static str = "The index could not be built or read";

pub const REGEX_FAILED: &'static str = "The regular expression was refused";

pub const LEVENSHTEIN_FAILED: &'static str = "The fuzzy query was refused";

pub const PARSE_URL_FAILED: &'static str = "The URL could not be parsed";

pub const WRITE_ICON_FAILED: &'static str = "The icon could not be written";

pub const GLOB_FAILED: &'static str = "The icon directory could not be read";

pub const PARSE_PATTERN_FAILED: &'static str = "The file name pattern was refused";

pub const CONTEXT_OPEN: &'static str = ": '";

pub const CONTEXT_CLOSE: &'static str = "'";

pub const CHAIN_HEAD: &'static str = "Error: ";

pub const CHAIN_CAUSE: &'static str = "Caused by: ";

pub const LINE_END: &'static str = "\n";

/// Whether the context of an error of this kind is a domain.
pub open spec fn names_domain(kind: ErrorKind) -> bool {
    kind == ErrorKind::EmptyIcon || kind == ErrorKind::NoIcon || kind == ErrorKind::NoMimetype
}

/// The fixed description of a kind.
pub open spec fn description_of(kind: ErrorKind) -> Seq<char> {
    match kind {
        ErrorKind::Fst => FST_FAILED@,
        ErrorKind::Regex => REGEX_FAILED@,
        ErrorKind::Levenshtein => LEVENSHTEIN_FAILED@,
        ErrorKind::ParseURL => PARSE_URL_FAILED@,
        ErrorKind::WriteIcon => WRITE_ICON_FAILED@,
        ErrorKind::Glob => GLOB_FAILED@,
        ErrorKind::ParsePattern => PARSE_PATTERN_FAILED@,
        ErrorKind::EmptyIcon => EMPTY_ICON@,
        ErrorKind::NoIcon => NO_ICON@,
        ErrorKind::NoMimetype => NO_MIMETYPE@,
    }
}

/// The message of an error: for an icon kind the description and the domain
/// in quotes, for a wrapped error the lower-level message.
pub open spec fn message_of(kind: ErrorKind, context: Seq<char>) -> Seq<char> {
    if names_domain(kind) {
        description_of(kind) + CONTEXT_OPEN@ + context + CONTEXT_CLOSE@
    } else {
        context
    }
}

/// The message followed by what caused it, one per line.
pub open spec fn chain_of(kind: ErrorKind, context: Seq<char>, cause: Option<Seq<char>>) -> Seq<
    char,
> {
    let head = CHAIN_HEAD@ + message_of(kind, context) + LINE_END@;
    match cause {
        Some(c) => head + CHAIN_CAUSE@ + c + LINE_END@,
        None => head,
    }
}

/// The item that reports an error: its description as title, its message as
/// subtitle and completion, the whole chain as the text to copy and to show
/// large.
pub open spec fn error_item_of(
    kind: ErrorKind,
    context: Seq<char>,
    cause: Option<Seq<char>>,
) -> DisplayItemView {
    DisplayItemView {
        title: description_of(kind),
        subtitle: Some(message_of(kind, context)),
        autocomplete: Some(message_of(kind, context)),
        uid: None,
        arg: None,
        icon: None,
        text_copy: Some(chain_of(kind, context, cause)),
        text_large_type: Some(chain_of(kind, context, cause)),
        quicklook_url: None,
        score: None,
        alternate: None,
    }
}

impl HistoryError {
    /// An error of the given kind about a domain, or with a lower-level
    /// message, that names no cause.
    pub fn new(kind: ErrorKind, context: String) -> (r: HistoryError)
        ensures
            r.kind == kind,
            r.context == context,
            r.cause is None,
    {
        HistoryError { kind, context, cause: None }
    }

    /// The fixed description of the error's kind.
    pub fn description(&self) -> (r: String)
        ensures
            r@ == description_of(self.kind),
    {
        let text = match self.kind {
            ErrorKind::Fst => FST_FAILED,
            ErrorKind::Regex => REGEX_FAILED,
            ErrorKind::Levenshtein => LEVENSHTEIN_FAILED,
            ErrorKind::ParseURL => PARSE_URL_FAILED,
            ErrorKind::WriteIcon => WRITE_ICON_FAILED,
            ErrorKind::Glob => GLOB_FAILED,
            ErrorKind::ParsePattern => PARSE_PATTERN_FAILED,
            ErrorKind::EmptyIcon => EMPTY_ICON,
            ErrorKind::NoIcon => NO_ICON,
            ErrorKind::NoMimetype => NO_MIMETYPE,
        };
        text.to_string()
    }

    /// The message of the error.
    pub fn message(&self) -> (r: String)
        ensures
            r@ == message_of(self.kind, self.context@),
    {
        match self.kind {
            ErrorKind::EmptyIcon | ErrorKind::NoIcon | ErrorKind::NoMimetype => {
                let mut out = self.description();
                out.append(CONTEXT_OPEN);
                out.append(self.context.as_str());
                out.append(CONTEXT_CLOSE);
                out
            },
            _ => self.context.clone(),
        }
    }

    /// The message and, below it, what caused the error.
    pub fn display_chain(&self) -> (r: String)
        ensures
            r@ == chain_of(self.kind, self.context@, text_opt(self.cause)),
    {
        let mut out = CHAIN_HEAD.to_string();
        let message = self.message();
        out.append(message.as_str());
        out.append(LINE_END);
        match &self.cause {
            Some(c) => {
                out.append(CHAIN_CAUSE);
                out.append(c.as_str());
                out.append(LINE_END);
            },
            None => {},
        }
        out
    }

    /// The display item that reports the error.
    pub fn to_item(&self) -> (r: DisplayItem)
        ensures
            r@ == error_item_of(self.kind, self.context@, text_opt(self.cause)),
    {
        let message = self.message();
        let chain = self.display_chain();
        DisplayItem {
            title: self.description(),
            subtitle: Some(message.clone()),
            autocomplete: Some(message),
            uid: None,
            arg: None,
            icon: None,
            text_copy: Some(chain.clone()),
            text_large_type: Some(chain),
            quicklook_url: None,
            score: None,
            alternate: None,
        }
    }
}

impl Clone for HistoryError {
    fn clone(&self) -> (r: Self)
        ensures
            r == *self,
    {
        HistoryError { kind: self.kind, context: self.context.clone(), cause: copy_opt(&self.cause) }
    }
}

} // verus!
