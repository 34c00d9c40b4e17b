use vstd::prelude::*;

verus! {

#[verifier::external_type_specification]
#[verifier::external_body]
pub struct ExRegex(regex::Regex);

/// Whether the regular-expression compiler accepts a pattern: a function
/// of the pattern text alone.
pub uninterp spec fn regex_ok(pattern: Seq<char>) -> bool;

/// Whether the regular expression compiled from `pattern` matches
/// somewhere inside `text`: a function of the pattern and the text alone.
pub uninterp spec fn regex_match(pattern: Seq<char>, text: Seq<char>) -> bool;

/// One compiled filter expression, stored together with the pattern text
/// it was compiled from; the pattern is the value the contracts speak of.
pub(crate) struct Filter {
    re: regex::Regex,
    pattern: String,
}

impl View for Filter {
    type V = Seq<char>;

    closed spec fn view(&self) -> Seq<char> {
        self.pattern@
    }
}

impl Filter {
    /// Relies on regex::Regex::new: whether a pattern compiles is decided
    /// by the pattern text alone, and an error value describes the syntax
    /// fault. The compiled program is kept beside its pattern text; this
    /// constructor is the only way to build a `Filter`, so the two always
    /// belong together.
    #[verifier::external_body]
    pub(crate) fn new(pattern: &str) -> (r: Result<Filter, String>)
        ensures
            r is Ok <==> regex_ok(pattern@),
            r is Ok ==> r->Ok_0@ == pattern@,
    {
        match regex::Regex::new(pattern) {
            Ok(re) => Ok(Filter { re, pattern: pattern.to_owned() }),
            Err(e) => Err(format!("{:?}", e)),
        }
    }

    /// Relies on regex::Regex::is_match: whether the pattern this filter
    /// was compiled from matches somewhere inside `text` is decided by the
    /// pattern and the text alone.
    #[verifier::external_body]
    pub(crate) fn is_match(&self, text: &str) -> (r: bool)
        ensures
            r == regex_match(self@, text@),
    {
        self.re.is_match(text)
    }
}

} // verus!
