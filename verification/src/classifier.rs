//! The boundary classifier: decides whether a line starts a new log entry.
//!
//! A line is tested against a compiled pattern after a permissive decoding
//! of its bytes, so classification never fails on malformed input.  The
//! pattern match itself and the lossy decoding are done by outside code;
//! their results are named by the uninterpreted functions below, and the
//! rest of the library reasons in terms of those names.

use vstd::prelude::*;

verus! {

#[verifier::external_type_specification]
#[verifier::external_body]
pub struct ExRegex(regex::Regex);

/// Whether the pattern, compiled as a regular expression, matches somewhere
/// in the text.  Names the result of `regex::Regex::is_match`, which depends
/// on the pattern and the haystack alone.
pub uninterp spec fn regex_match(pattern: Seq<char>, text: Seq<char>) -> bool;

/// Whether the pattern compiles as a regular expression.  Names the outcome
/// of `regex::Regex::new`, which depends on the pattern alone.
pub uninterp spec fn pattern_compiles(pattern: Seq<char>) -> bool;

/// The permissive decoding of a byte sequence: valid UTF-8 passes through,
/// invalid sequences are replaced.  Names the result of
/// `String::from_utf8_lossy`, which depends on the bytes alone.
pub uninterp spec fn lossy_utf8(bytes: Seq<u8>) -> Seq<char>;

/// A line of bytes marks the start of a new entry when its decoded text
/// matches the boundary pattern.
pub open spec fn spec_is_boundary(pattern: Seq<char>, line: Seq<u8>) -> bool {
    regex_match(pattern, lossy_utf8(line))
}

/// A compiled boundary pattern.
pub struct Classifier {
    re: regex::Regex,
    pattern: Ghost<Seq<char>>,
}

impl Classifier {
    /// The pattern this classifier was compiled from.
    pub closed spec fn pattern(&self) -> Seq<char> {
        self.pattern@
    }

    /// Compile `pattern`: a classifier exactly when the pattern is a
    /// well-formed regular expression, else the compiler's message.
    pub fn new(pattern: &str) -> (r: Result<Classifier, String>)
        ensures
            (r is Ok) == pattern_compiles(pattern@),
            r matches Ok(c) ==> c.pattern() == pattern@,
    {
        match compile_regex(pattern) {
            Ok(re) => Ok(Classifier { re, pattern: Ghost(pattern@) }),
            Err(e) => Err(e),
        }
    }

    /// True when `line` begins a new entry.
    pub fn is_boundary(&self, line: &[u8]) -> (r: bool)
        ensures
            r == spec_is_boundary(self.pattern(), line@),
    {
        let text = lossy_decode(line);
        regex_is_match(self, text.as_str())
    }
}

/// The default boundary pattern: a date at the start of the line.
pub fn default_pattern() -> (s: &'static str)
    ensures
        s@ == "^\\d{4}-\\d{2}-\\d{2}\\s+"@,
{
    "^\\d{4}-\\d{2}-\\d{2}\\s+"
}

/// Relies on `regex::Regex::new`: compiles the pattern, or reports why it
/// is invalid.  Whether a pattern compiles is deterministic in the pattern
/// alone, so the outcome carries a name.
#[verifier::external_body]
fn compile_regex(pattern: &str) -> (r: Result<regex::Regex, String>)
    ensures
        r is Ok <==> pattern_compiles(pattern@),
{
    match regex::Regex::new(pattern) {
        Ok(re) => Ok(re),
        Err(e) => Err(format!("{}", e)),
    }
}

/// Relies on `regex::Regex::is_match`: true iff the compiled pattern
/// matches anywhere in `text`; deterministic in the pattern and the text.
/// A classifier's regex is always the one compiled from its recorded
/// pattern, since `Classifier::new` is the type's only constructor.
#[verifier::external_body]
fn regex_is_match(c: &Classifier, text: &str) -> (r: bool)
    ensures
        r == regex_match(c.pattern(), text@),
{
    c.re.is_match(text)
}

/// Relies on `String::from_utf8_lossy`: decodes the bytes, replacing
/// invalid UTF-8 sequences; deterministic in the bytes alone.
#[verifier::external_body]
fn lossy_decode(bytes: &[u8]) -> (s: String)
    ensures
        s@ == lossy_utf8(bytes@),
{
    String::from_utf8_lossy(bytes).into_owned()
}

} // verus!
