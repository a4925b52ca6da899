//! The closed set of request verbs, with case-insensitive parsing and a
//! canonical uppercase wire form.

use vstd::prelude::*;
use crate::error::ParsingError;
use crate::text::{lemma_lower_idempotent, lower};
use crate::text_exec::{eq_str, lower_string};

verus! {

#[derive(Clone, Copy, Debug, PartialEq, Eq, Structural)]
pub enum Method {
    GET,
    HEAD,
    POST,
    PUT,
    DELETE,
    CONNECT,
    OPTIONS,
    TRACE,
    PATCH,
}

/// The canonical uppercase token of each verb, as it appears on the wire.
pub open spec fn method_token(m: Method) -> Seq<char> {
    match m {
        Method::GET => seq!['G', 'E', 'T'],
        Method::HEAD => seq!['H', 'E', 'A', 'D'],
        Method::POST => seq!['P', 'O', 'S', 'T'],
        Method::PUT => seq!['P', 'U', 'T'],
        Method::DELETE => seq!['D', 'E', 'L', 'E', 'T', 'E'],
        Method::CONNECT => seq!['C', 'O', 'N', 'N', 'E', 'C', 'T'],
        Method::OPTIONS => seq!['O', 'P', 'T', 'I', 'O', 'N', 'S'],
        Method::TRACE => seq!['T', 'R', 'A', 'C', 'E'],
        Method::PATCH => seq!['P', 'A', 'T', 'C', 'H'],
    }
}

/// Case-insensitive reading of a token as a verb; `None` for anything that
/// is not one of the nine tokens, including the empty token.
pub open spec fn method_of(s: Seq<char>) -> Option<Method> {
    if lower(s) == lower(method_token(Method::GET)) {
        Some(Method::GET)
    } else if lower(s) == lower(method_token(Method::HEAD)) {
        Some(Method::HEAD)
    } else if lower(s) == lower(method_token(Method::POST)) {
        Some(Method::POST)
    } else if lower(s) == lower(method_token(Method::PUT)) {
        Some(Method::PUT)
    } else if lower(s) == lower(method_token(Method::DELETE)) {
        Some(Method::DELETE)
    } else if lower(s) == lower(method_token(Method::CONNECT)) {
        Some(Method::CONNECT)
    } else if lower(s) == lower(method_token(Method::OPTIONS)) {
        Some(Method::OPTIONS)
    } else if lower(s) == lower(method_token(Method::TRACE)) {
        Some(Method::TRACE)
    } else if lower(s) == lower(method_token(Method::PATCH)) {
        Some(Method::PATCH)
    } else {
        None
    }
}

impl Method {
    /// The canonical uppercase token, used when serializing.
    pub fn as_str(&self) -> (r: &'static str)
        ensures
            r@ == method_token(*self),
    {
        proof {
            reveal_strlit("GET");
            reveal_strlit("HEAD");
            reveal_strlit("POST");
            reveal_strlit("PUT");
            reveal_strlit("DELETE");
            reveal_strlit("CONNECT");
            reveal_strlit("OPTIONS");
            reveal_strlit("TRACE");
            reveal_strlit("PATCH");
            assert("GET"@ =~= method_token(Method::GET));
            assert("HEAD"@ =~= method_token(Method::HEAD));
            assert("POST"@ =~= method_token(Method::POST));
            assert("PUT"@ =~= method_token(Method::PUT));
            assert("DELETE"@ =~= method_token(Method::DELETE));
            assert("CONNECT"@ =~= method_token(Method::CONNECT));
            assert("OPTIONS"@ =~= method_token(Method::OPTIONS));
            assert("TRACE"@ =~= method_token(Method::TRACE));
            assert("PATCH"@ =~= method_token(Method::PATCH));
        }
        match self {
            Method::GET => "GET",
            Method::HEAD => "HEAD",
            Method::POST => "POST",
            Method::PUT => "PUT",
            Method::DELETE => "DELETE",
            Method::CONNECT => "CONNECT",
            Method::OPTIONS => "OPTIONS",
            Method::TRACE => "TRACE",
            Method::PATCH => "PATCH",
        }
    }

    /// Parses a verb token case-insensitively; any other token — empty,
    /// misspelled, or carrying extra characters — is `UnknownMethod`.
    pub fn from_str(s: &str) -> (r: Result<Method, ParsingError>)
        ensures
            match r {
                Ok(m) => method_of(s@) == Some(m),
                Err(e) => method_of(s@) is None && e == ParsingError::UnknownMethod,
            },
    {
        proof {
            reveal_strlit("get");
            reveal_strlit("head");
            reveal_strlit("post");
            reveal_strlit("put");
            reveal_strlit("delete");
            reveal_strlit("connect");
            reveal_strlit("options");
            reveal_strlit("trace");
            reveal_strlit("patch");
            assert("get"@ =~= lower(method_token(Method::GET)));
            assert("head"@ =~= lower(method_token(Method::HEAD)));
            assert("post"@ =~= lower(method_token(Method::POST)));
            assert("put"@ =~= lower(method_token(Method::PUT)));
            assert("delete"@ =~= lower(method_token(Method::DELETE)));
            assert("connect"@ =~= lower(method_token(Method::CONNECT)));
            assert("options"@ =~= lower(method_token(Method::OPTIONS)));
            assert("trace"@ =~= lower(method_token(Method::TRACE)));
            assert("patch"@ =~= lower(method_token(Method::PATCH)));
        }
        let ls = lower_string(s);
        let l = ls.as_str();
        if eq_str(l, "get") {
            Ok(Method::GET)
        } else if eq_str(l, "head") {
            Ok(Method::HEAD)
        } else if eq_str(l, "post") {
            Ok(Method::POST)
        } else if eq_str(l, "put") {
            Ok(Method::PUT)
        } else if eq_str(l, "delete") {
            Ok(Method::DELETE)
        } else if eq_str(l, "connect") {
            Ok(Method::CONNECT)
        } else if eq_str(l, "options") {
            Ok(Method::OPTIONS)
        } else if eq_str(l, "trace") {
            Ok(Method::TRACE)
        } else if eq_str(l, "patch") {
            Ok(Method::PATCH)
        } else {
            Err(ParsingError::UnknownMethod)
        }
    }
}

/// Parsing the canonical token of a verb names that verb: the pair of
/// `method_of` and `method_token` is a bijection over the nine tokens.
pub proof fn lemma_method_token_round_trip(m: Method)
    ensures
        method_of(method_token(m)) == Some(m),
{
    assert(lower(method_token(Method::GET)) =~= seq!['g', 'e', 't']);
    assert(lower(method_token(Method::HEAD)) =~= seq!['h', 'e', 'a', 'd']);
    assert(lower(method_token(Method::POST)) =~= seq!['p', 'o', 's', 't']);
    assert(lower(method_token(Method::PUT)) =~= seq!['p', 'u', 't']);
    assert(lower(method_token(Method::DELETE)) =~= seq!['d', 'e', 'l', 'e', 't', 'e']);
    assert(lower(method_token(Method::CONNECT)) =~= seq!['c', 'o', 'n', 'n', 'e', 'c', 't']);
    assert(lower(method_token(Method::OPTIONS)) =~= seq!['o', 'p', 't', 'i', 'o', 'n', 's']);
    assert(lower(method_token(Method::TRACE)) =~= seq!['t', 'r', 'a', 'c', 'e']);
    assert(lower(method_token(Method::PATCH)) =~= seq!['p', 'a', 't', 'c', 'h']);
}

/// Reading a verb token is case-insensitive: a token and its lowercased
/// form name the same verb.
pub proof fn lemma_method_parse_case_insensitive(s: Seq<char>)
    ensures
        method_of(lower(s)) == method_of(s),
{
    lemma_lower_idempotent(s);
}

} // verus!
