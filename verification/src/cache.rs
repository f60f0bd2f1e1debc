//! Which `Cache-Control` value a response gets, by the path that was asked
//! for.

use crate::text::{ends_with, starts_with};
use crate::textmap::{Entries, TextMap};
use std::rc::Rc;
use vstd::prelude::*;

verus! {

/// Whether a rule's key fits a path: as its end, or else as its beginning.
pub open spec fn fits(key: Seq<char>, path: Seq<char>, at_end: bool) -> bool {
    if at_end {
        key.is_suffix_of(path)
    } else {
        key.is_prefix_of(path)
    }
}

/// The value of the first rule, in the order of the keys, whose key fits the
/// path.
pub open spec fn first_fitting(rules: Entries, path: Seq<char>, at_end: bool) -> Option<Seq<char>>
    decreases rules.len(),
{
    if rules.len() == 0 {
        None
    } else if fits(rules[0].0, path, at_end) {
        Some(rules[0].1)
    } else {
        first_fitting(rules.drop_first(), path, at_end)
    }
}

/// The first rule that fits is the one that no fitting rule stands before.
pub proof fn lemma_first_fitting(rules: Entries, path: Seq<char>, at_end: bool, at: int)
    requires
        0 <= at <= rules.len(),
        forall|j: int| 0 <= j < at ==> !fits((#[trigger] rules[j]).0, path, at_end),
        at < rules.len() ==> fits(rules[at].0, path, at_end),
    ensures
        first_fitting(rules, path, at_end) == if at < rules.len() {
            Some(rules[at].1)
        } else {
            None
        },
    decreases rules.len(),
{
    if at > 0 {
        assert(!fits(rules[0].0, path, at_end));
        let rest = rules.drop_first();
        assert forall|j: int| 0 <= j < at - 1 implies !fits(
            (#[trigger] rest[j]).0,
            path,
            at_end,
        ) by {
            assert(rest[j] == rules[j + 1]);
        }
        lemma_first_fitting(rest, path, at_end, at - 1);
    }
}

/// The value of the first rule of `rules` whose key fits `path`.
fn first_fitting_in<'a>(rules: &'a TextMap, path: &str, at_end: bool) -> (found: Option<&'a str>)
    ensures
        match first_fitting(rules@, path@, at_end) {
            Some(v) => found is Some && found->0@ == v,
            None => found is None,
        },
{
    let mut i: usize = 0;
    while i < rules.len()
        invariant
            i <= rules@.len(),
            forall|j: int| 0 <= j < i ==> !fits((#[trigger] rules@[j]).0, path@, at_end),
        decreases rules@.len() - i,
    {
        let key = rules.key(i);
        let fitting = if at_end {
            ends_with(path, key)
        } else {
            starts_with(path, key)
        };
        if fitting {
            proof {
                lemma_first_fitting(rules@, path@, at_end, i as int);
            }
            return Some(rules.value(i));
        }
        i += 1;
    }
    proof {
        lemma_first_fitting(rules@, path@, at_end, i as int);
    }
    None
}

/// The rules for `Cache-Control`: values for the paths that begin with a
/// given prefix, and values for the paths that end with a given suffix.
pub struct CacheControl {
    /// Values for paths by their beginning.
    pub prefixes: Option<TextMap>,
    /// Values for paths by their end.
    pub suffixes: Option<TextMap>,
}

impl CacheControl {
    /// The value that the rules give a path: that of the first prefix that
    /// fits, else that of the first suffix that fits.
    pub open spec fn value_for(self, path: Seq<char>) -> Option<Seq<char>> {
        let by_prefix = match self.prefixes {
            Some(rules) => first_fitting(rules@, path, false),
            None => None,
        };
        if by_prefix is Some {
            by_prefix
        } else {
            match self.suffixes {
                Some(rules) => first_fitting(rules@, path, true),
                None => None,
            }
        }
    }

    /// The value of the first rule that fits `path` as a prefix or, when no
    /// prefix fits, as a suffix.
    pub fn get_value(&self, path: &str) -> (value: Option<&str>)
        ensures
            match self.value_for(path@) {
                Some(v) => value is Some && value->0@ == v,
                None => value is None,
            },
    {
        if let Some(prefixes) = &self.prefixes {
            let found = first_fitting_in(prefixes, path, false);
            if found.is_some() {
                return found;
            }
        }
        if let Some(suffixes) = &self.suffixes {
            return first_fitting_in(suffixes, path, true);
        }
        None
    }
}

impl Default for CacheControl {
    /// No rules at all.
    fn default() -> (c: Self)
        ensures
            c.prefixes is None,
            c.suffixes is None,
    {
        CacheControl { prefixes: None, suffixes: None }
    }
}

/// The value for a path that no rule fits.
pub open spec fn fallback_value() -> Seq<char> {
    "private,max-age=0"@
}

/// The `Cache-Control` value of a response to a request for `path`.
pub open spec fn header_for(rules: CacheControl, path: Seq<char>) -> Seq<char> {
    match rules.value_for(path) {
        Some(v) => v,
        None => fallback_value(),
    }
}

/// `Rc::clone`: one more pointer to the same allocation, and so to the same
/// value.
#[verifier::external_body]
fn share<T>(rc: &Rc<T>) -> (other: Rc<T>)
    ensures
        other == *rc,
{
    rc.clone()
}

/// Makes the middleware that sets `Cache-Control`, one for each service that
/// is to be wrapped; they all share the rules.
pub struct CacheHeaders(Rc<CacheControl>);

impl CacheHeaders {
    /// The rules that the middleware will go by.
    pub closed spec fn rules(self) -> CacheControl {
        *self.0
    }

    /// A factory for middleware that goes by `cache`.
    pub fn new(cache: CacheControl) -> (h: Self)
        ensures
            h.rules() == cache,
    {
        CacheHeaders(Rc::new(cache))
    }

    /// The middleware around `service`.
    pub fn new_transform<S>(&self, service: S) -> (m: CacheHeadersMiddleware<S>)
        ensures
            m.rules() == self.rules(),
            m.wrapped() == service,
    {
        CacheHeadersMiddleware { service, inner: share(&self.0) }
    }
}

impl Default for CacheHeaders {
    /// A factory for middleware without rules.
    fn default() -> (h: Self)
        ensures
            h.rules().prefixes is None,
            h.rules().suffixes is None,
    {
        CacheHeaders(Rc::new(CacheControl::default()))
    }
}

/// Sets `Cache-Control` on the responses of the service that it wraps.
pub struct CacheHeadersMiddleware<S> {
    service: S,
    inner: Rc<CacheControl>,
}

impl<S> CacheHeadersMiddleware<S> {
    /// The rules that the middleware goes by.
    pub closed spec fn rules(self) -> CacheControl {
        *self.inner
    }

    /// The service that is wrapped.
    pub closed spec fn wrapped(self) -> S {
        self.service
    }

    /// The service that is wrapped.
    pub fn service(&self) -> (s: &S)
        ensures
            *s == self.wrapped(),
    {
        &self.service
    }

    /// The `Cache-Control` value for the response to a request for `path`:
    /// what the rules give, and `private,max-age=0` where they give nothing.
    pub fn call(&self, path: &str) -> (value: &str)
        ensures
            value@ == header_for(self.rules(), path@),
    {
        match self.inner.get_value(path) {
            Some(v) => v,
            None => "private,max-age=0",
        }
    }
}

} // verus!
