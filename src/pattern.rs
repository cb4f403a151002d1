//! Compiled regular expressions, kept together with their source text.
use vstd::prelude::*;

verus! {

#[verifier::external_type_specification]
#[verifier::external_body]
pub struct ExRegex(regex::Regex);

#[verifier::external_type_specification]
#[verifier::external_body]
pub struct ExRegexError(regex::Error);

/// What group `i` of the leftmost-first match of the regular expression
/// `pattern` in `text` captured: `None` where there is no match or the group
/// took no part in it. Group 0 is the whole match.
pub uninterp spec fn regex_group(pattern: Seq<char>, text: Seq<char>, i: nat) -> Option<Seq<char>>;

/// Whether `pattern` compiles as a regular expression with the default
/// options (valid syntax, within the default size limit).
pub uninterp spec fn regex_compiles(pattern: Seq<char>) -> bool;

/// A regular expression together with the text it was compiled from.
#[derive(Debug)]
pub struct Pattern {
    source: String,
    re: regex::Regex,
}

/// The text of an optional string.
pub open spec fn opt_view(o: Option<String>) -> Option<Seq<char>> {
    match o {
        Some(s) => Some(s@),
        None => None,
    }
}

impl Pattern {
    /// The text the expression was compiled from.
    pub closed spec fn src(&self) -> Seq<char> {
        self.source@
    }

    /// Whether the expression matches somewhere in `text`.
    pub open spec fn matches(&self, text: Seq<char>) -> bool {
        regex_group(self.src(), text, 0) is Some
    }

    /// Capture group `i` of the match in `text`.
    pub open spec fn group(&self, text: Seq<char>, i: nat) -> Option<Seq<char>> {
        regex_group(self.src(), text, i)
    }

    /// Relies on `regex::Regex::new`: compiles `source`, or reports it invalid.
    #[verifier::external_body]
    fn compile_raw(source: &str) -> (r: Result<Pattern, regex::Error>)
        ensures
            r is Ok <==> regex_compiles(source@),
            r matches Ok(p) ==> p.src() == source@,
    {
        regex::Regex::new(source).map(|re| Pattern { source: source.to_string(), re })
    }

    /// Compiles `source`; on failure hands back the source text.
    pub fn compile(source: &str) -> (r: Result<Pattern, String>)
        ensures
            r is Ok <==> regex_compiles(source@),
            r matches Ok(p) ==> p.src() == source@,
            r matches Err(e) ==> e@ == source@,
    {
        match Pattern::compile_raw(source) {
            Ok(p) => Ok(p),
            Err(_) => Err(String::from_str(source)),
        }
    }

    /// Relies on `regex::Regex::captures` and `regex::Captures::get`: the text
    /// of group `i` of the first match in `text`.
    #[verifier::external_body]
    pub(crate) fn group_of(&self, text: &str, i: usize) -> (r: Option<String>)
        ensures
            opt_view(r) == regex_group(self.src(), text@, i as nat),
    {
        self.re.captures(text).and_then(|c| c.get(i)).map(|m| m.as_str().to_string())
    }

    /// The source text.
    pub fn source(&self) -> (r: String)
        ensures
            r@ == self.src(),
    {
        self.source.clone()
    }
}

} // verus!
