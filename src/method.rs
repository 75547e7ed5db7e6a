//! HTTP methods that a load test can use.

use vstd::prelude::*;

verus! {

/// Supported HTTP methods.
#[derive(Clone, Copy, Debug, PartialEq, Eq, Structural)]
pub enum HttpMethod {
    Get,
    Post,
    Put,
    Delete,
    Patch,
}

/// A method name that is none of the supported ones.
#[derive(Debug)]
pub struct UnknownMethod {
    /// The name as it was given.
    pub input: String,
}

/// `c` is `n`, or the ASCII upper-case form of `n`.
pub open spec fn folds_to(c: char, n: char) -> bool {
    c == n || ('A' <= c && c <= 'Z' && c as u32 + 32 == n as u32)
}

/// `s` spells the lower-case `name`, ignoring the case of ASCII letters.
pub open spec fn spells(s: Seq<char>, name: Seq<char>) -> bool {
    s.len() == name.len() && forall|i: int| 0 <= i < s.len() ==> folds_to(s[i], name[i])
}

/// The method that `s` names, ignoring case. Every character that lower-cases
/// to one of these ASCII letters is itself ASCII, so folding ASCII letters
/// alone decides the same as full Unicode lower-casing.
pub open spec fn method_named(s: Seq<char>) -> Option<HttpMethod> {
    if spells(s, seq!['g', 'e', 't']) {
        Some(HttpMethod::Get)
    } else if spells(s, seq!['p', 'o', 's', 't']) {
        Some(HttpMethod::Post)
    } else if spells(s, seq!['p', 'u', 't']) {
        Some(HttpMethod::Put)
    } else if spells(s, seq!['d', 'e', 'l', 'e', 't', 'e']) {
        Some(HttpMethod::Delete)
    } else if spells(s, seq!['p', 'a', 't', 'c', 'h']) {
        Some(HttpMethod::Patch)
    } else {
        None
    }
}

fn char_folds_to(c: char, n: char) -> (r: bool)
    ensures
        r == folds_to(c, n),
{
    c == n || ('A' <= c && c <= 'Z' && c as u32 + 32 == n as u32)
}

/// Whether `s` spells `name`, ignoring the case of ASCII letters.
fn equals_ignoring_case(s: &str, name: &[char]) -> (r: bool)
    ensures
        r == spells(s@, name@),
{
    let n = s.unicode_len();
    if n != name.len() {
        return false;
    }
    let mut i: usize = 0;
    while i < n
        invariant
            n == s@.len() == name@.len(),
            i <= n,
            forall|j: int| 0 <= j < i ==> folds_to(s@[j], name@[j]),
        decreases n - i,
    {
        if !char_folds_to(s.get_char(i), name[i]) {
            return false;
        }
        i = i + 1;
    }
    true
}

impl HttpMethod {
    /// Parses a method name, ignoring case (`"get"`, `"GET"`, `"Get"`).
    pub fn parse(s: &str) -> (r: Result<HttpMethod, UnknownMethod>)
        ensures
            match r {
                Ok(m) => method_named(s@) == Some(m),
                Err(e) => method_named(s@) is None && e.input@ == s@,
            },
    {
        let get = ['g', 'e', 't'];
        let post = ['p', 'o', 's', 't'];
        let put = ['p', 'u', 't'];
        let delete = ['d', 'e', 'l', 'e', 't', 'e'];
        let patch = ['p', 'a', 't', 'c', 'h'];
        assert(get@ =~= seq!['g', 'e', 't']);
        assert(post@ =~= seq!['p', 'o', 's', 't']);
        assert(put@ =~= seq!['p', 'u', 't']);
        assert(delete@ =~= seq!['d', 'e', 'l', 'e', 't', 'e']);
        assert(patch@ =~= seq!['p', 'a', 't', 'c', 'h']);
        if equals_ignoring_case(s, get.as_slice()) {
            Ok(HttpMethod::Get)
        } else if equals_ignoring_case(s, post.as_slice()) {
            Ok(HttpMethod::Post)
        } else if equals_ignoring_case(s, put.as_slice()) {
            Ok(HttpMethod::Put)
        } else if equals_ignoring_case(s, delete.as_slice()) {
            Ok(HttpMethod::Delete)
        } else if equals_ignoring_case(s, patch.as_slice()) {
            Ok(HttpMethod::Patch)
        } else {
            Err(UnknownMethod { input: s.to_owned() })
        }
    }

    /// POST, PUT and PATCH carry a request body; GET and DELETE do not.
    pub open spec fn carries_body_spec(&self) -> bool {
        *self is Post || *self is Put || *self is Patch
    }

    /// Whether a request of this method carries a body.
    pub fn carries_body(&self) -> (r: bool)
        ensures
            r == self.carries_body_spec(),
    {
        match self {
            HttpMethod::Post | HttpMethod::Put | HttpMethod::Patch => true,
            HttpMethod::Get | HttpMethod::Delete => false,
        }
    }
}

impl std::str::FromStr for HttpMethod {
    type Err = UnknownMethod;

    fn from_str(s: &str) -> Result<HttpMethod, UnknownMethod> {
        HttpMethod::parse(s)
    }
}

} // verus!
