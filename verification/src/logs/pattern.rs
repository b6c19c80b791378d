//! Regular expressions.

use vstd::prelude::*;

use crate::error::LogsManagerError;
use crate::text::opt_text;

verus! {

/// `regex::Regex`, a compiled regular expression.
#[verifier::external_type_specification]
#[verifier::external_body]
pub struct ExRegex(regex::Regex);

/// What `regex::Regex::new` says is wrong with an expression, if anything is.
pub uninterp spec fn pattern_error(pattern: Seq<char>) -> Option<Seq<char>>;

/// Whether `regex::Regex::is_match` finds a match of an expression in a text.
pub uninterp spec fn pattern_hits(pattern: Seq<char>, text: Seq<char>) -> bool;

/// The text of group 1 in the match that `regex::Regex::captures` finds of an expression in a text.
pub uninterp spec fn first_capture(pattern: Seq<char>, text: Seq<char>) -> Option<Seq<char>>;

/// A pattern: a regular expression next to its source. [`Pattern::compile`] is the only
/// thing that makes one, so the two always belong together.
pub struct Pattern {
    source: String,
    compiled: regex::Regex,
}

impl View for Pattern {
    type V = Seq<char>;

    /// The source of the expression.
    closed spec fn view(&self) -> Seq<char> {
        self.source@
    }
}

impl Pattern {
    /// `regex::Regex::new`: compiles an expression, or says what is wrong with it.
    #[verifier::external_body]
    pub(crate) fn compile(source: &str) -> (r: Result<Pattern, String>)
        ensures
            match r {
                Ok(p) => pattern_error(source@) is None && p@ == source@,
                Err(m) => pattern_error(source@) == Some(m@),
            },
    {
        match regex::Regex::new(source) {
            Ok(compiled) => Ok(Pattern { source: source.to_owned(), compiled }),
            Err(e) => Err(e.to_string()),
        }
    }

    /// Reads a search pattern.
    pub fn new(source: &str) -> (r: Result<Pattern, LogsManagerError>)
        ensures
            match r {
                Ok(p) => pattern_error(source@) is None && p@ == source@,
                Err(LogsManagerError::InvalidGrep(m)) => pattern_error(source@) == Some(m@),
                Err(_) => false,
            },
    {
        match Pattern::compile(source) {
            Ok(p) => Ok(p),
            Err(m) => Err(LogsManagerError::InvalidGrep(m)),
        }
    }

    /// `regex::Regex::is_match`: whether the expression matches anywhere in `text`.
    #[verifier::external_body]
    pub(crate) fn hits(&self, text: &str) -> (r: bool)
        ensures
            r == pattern_hits(self@, text@),
    {
        self.compiled.is_match(text)
    }

    /// `regex::Regex::captures`: the text of group 1 in the leftmost match. There is none when
    /// nothing matches, and when group 1 took no part in the match.
    #[verifier::external_body]
    pub(crate) fn capture(&self, text: &str) -> (r: Option<String>)
        ensures
            opt_text(r) == first_capture(self@, text@),
    {
        let captures = self.compiled.captures(text)?;
        let group = captures.get(1)?;
        Some(group.as_str().to_string())
    }
}

} // verus!
