//! A single compiled glob expression, answering whether a path's string form
//! matches it.
//!
//! Compilation and matching are done by the `glob` crate; both are pure
//! functions of the texts involved, so the library names their results with
//! the uninterpreted spec functions [`glob_ok`] and [`glob_match`] and states
//! everything else in terms of those names.

use vstd::prelude::*;

verus! {

#[verifier::external_type_specification]
#[verifier::external_body]
pub struct ExGlobPattern(glob::Pattern);

/// Whether `glob::Pattern::new` accepts a pattern text: compilation succeeds
/// or fails as a function of the text alone.
pub uninterp spec fn glob_ok(pattern: Seq<char>) -> bool;

/// What `glob::Pattern::matches` answers for a pattern text and a path's
/// string form: the answer is a function of the two texts alone.
pub uninterp spec fn glob_match(pattern: Seq<char>, path: Seq<char>) -> bool;

/// The rooted form of a configured pattern text: a recursive-directory
/// wildcard prefix is applied uniformly to every configured pattern before
/// compilation, so that a pattern such as `*.go` matches at any depth below
/// the watched root, not only directly under it.
pub open spec fn rooted(s: Seq<char>) -> Seq<char> {
    ("**/")@ + s
}

/// Prefix a configured pattern text with the recursive-directory wildcard.
pub fn root_pattern(s: &str) -> (r: String)
    ensures
        r@ == rooted(s@),
{
    let mut out = String::from_str("**/");
    out.append(s);
    out
}

/// The first configured pattern text in the list whose rooted form the glob
/// compiler refuses, if any.
pub open spec fn first_bad_glob(items: Seq<Seq<char>>) -> Option<Seq<char>>
    decreases items.len(),
{
    if items.len() == 0 {
        None
    } else if !glob_ok(rooted(items[0])) {
        Some(items[0])
    } else {
        first_bad_glob(items.drop_first())
    }
}

/// A pattern list is accepted whole or refused at its first offender: when
/// no configured pattern is reported bad, every rooted pattern compiles.
pub proof fn lemma_all_globs_ok(items: Seq<Seq<char>>)
    requires
        first_bad_glob(items) is None,
    ensures
        forall|i: int| 0 <= i < items.len() ==> glob_ok(rooted(items[i])),
    decreases items.len(),
{
    if items.len() > 0 {
        lemma_all_globs_ok(items.drop_first());
        assert forall|i: int| 0 <= i < items.len() implies glob_ok(rooted(items[i])) by {
            if i > 0 {
                assert(items.drop_first()[i - 1] == items[i]);
            }
        }
    }
}

/// A compiled glob expression paired with the exact text it was compiled
/// from.  Its view is that text.  The fields are private and set only by
/// [`Matcher::new`], so `compiled` always holds the compilation of `text`.
pub struct Matcher {
    text: String,
    compiled: glob::Pattern,
}

impl View for Matcher {
    type V = Seq<char>;

    closed spec fn view(&self) -> Seq<char> {
        self.text@
    }
}

impl Matcher {
    /// Relies on `glob::Pattern::new`: whether a pattern text compiles is a
    /// function of the text alone, named by [`glob_ok`]; the call returns
    /// without panicking for every text.  On success the result pairs the
    /// text with its compilation.
    #[verifier::external_body]
    pub fn new(text: &str) -> (r: Option<Matcher>)
        ensures
            r is Some <==> glob_ok(text@),
            r matches Some(p) ==> p@ == text@,
    {
        match glob::Pattern::new(text) {
            Ok(compiled) => Some(Matcher { text: text.to_string(), compiled }),
            Err(_) => None,
        }
    }

    /// Relies on `glob::Pattern::matches`: the answer is a function of the
    /// pattern text and the path text alone, named by [`glob_match`]; the
    /// call returns without panicking for every pair of texts.  `compiled`
    /// always holds the compilation of `text` (both are set only in
    /// [`Matcher::new`]), so the call answers for `self@`.
    #[verifier::external_body]
    pub fn matches(&self, path: &str) -> (r: bool)
        ensures
            r == glob_match(self@, path@),
    {
        self.compiled.matches(path)
    }

    /// The pattern text this matcher was compiled from.
    pub fn text(&self) -> (r: &str)
        ensures
            r@ == self@,
    {
        self.text.as_str()
    }
}

} // verus!
