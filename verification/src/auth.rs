//! A shared secret in a request header.

use vstd::prelude::*;

verus! {

/// A request is let through when it carries a token, a token is configured,
/// and the two are the same.
pub open spec fn authorized(token: Option<Seq<char>>, expected: Option<Seq<char>>) -> bool {
    token is Some && expected is Some && token->0 == expected->0
}

/// What becomes of a request.
#[derive(Debug, Clone, Copy, PartialEq, Eq, Structural)]
pub enum Verdict {
    /// The request goes on to the wrapped service.
    Forward,
    /// The request is answered at once: not authorized.
    Unauthorized,
}

/// Makes the middleware that asks for the token.
pub struct TokenAuth;

impl TokenAuth {
    /// The middleware around `service`.
    pub fn new_transform<S>(&self, service: S) -> (m: TokenAuthMiddleware<S>)
        ensures
            m.wrapped() == service,
    {
        TokenAuthMiddleware { service }
    }
}

/// Lets a request through to the service that it wraps only if the request
/// carries the configured token.
pub struct TokenAuthMiddleware<S> {
    service: S,
}

impl<S> TokenAuthMiddleware<S> {
    /// The service that is wrapped.
    pub closed spec fn wrapped(self) -> S {
        self.service
    }

    /// The service that is wrapped.
    pub fn service(&self) -> (s: &S)
        ensures
            *s == self.wrapped(),
    {
        &self.service
    }

    /// Judges a request by the token that it carries, if it carries one that
    /// is text, against the token that is configured, if one is.
    pub fn call(&self, token: Option<&str>, expected: Option<&str>) -> (v: Verdict)
        ensures
            v == if authorized(
                match token {
                    Some(t) => Some(t@),
                    None => None,
                },
                match expected {
                    Some(e) => Some(e@),
                    None => None,
                },
            ) {
                Verdict::Forward
            } else {
                Verdict::Unauthorized
            },
    {
        match (token, expected) {
            (Some(t), Some(e)) => {
                if crate::text::same_text(t, e) {
                    Verdict::Forward
                } else {
                    Verdict::Unauthorized
                }
            },
            _ => Verdict::Unauthorized,
        }
    }
}

} // verus!
