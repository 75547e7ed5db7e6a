//! What the dispatcher decides before and around its workers' calls: how
//! many workers run, and what each request carries.

use vstd::prelude::*;

use crate::method::HttpMethod;

verus! {

/// The `User-Agent` value that every request sends before its own headers.
pub const USER_AGENT_VALUE: &'static str = "loadster 1.0.0";

/// `i` is the position of the first `:` in `s`.
pub open spec fn is_first_colon(s: Seq<char>, i: int) -> bool {
    &&& 0 <= i < s.len()
    &&& s[i] == ':'
    &&& forall|j: int| 0 <= j < i ==> s[j] != ':'
}

/// A `"Name: Value"` line split at its first colon: the name is what comes
/// before it, the value what comes after it (leading spaces kept). `None`
/// when the line holds no colon.
pub open spec fn split_header(s: Seq<char>) -> Option<(Seq<char>, Seq<char>)> {
    if exists|i: int| is_first_colon(s, i) {
        let i = choose|i: int| is_first_colon(s, i);
        Some((s.subrange(0, i), s.subrange(i + 1, s.len() as int)))
    } else {
        None
    }
}

/// The headers of a list of lines: each line with a colon, split, in order;
/// lines without a colon are skipped.
pub open spec fn headers_of(lines: Seq<Seq<char>>) -> Seq<(Seq<char>, Seq<char>)>
    decreases lines.len(),
{
    if lines.len() == 0 {
        Seq::empty()
    } else {
        let rest = headers_of(lines.drop_last());
        match split_header(lines.last()) {
            Some(h) => rest.push(h),
            None => rest,
        }
    }
}

pub open spec fn string_views(v: Seq<String>) -> Seq<Seq<char>> {
    v.map_values(|s: String| s@)
}

pub open spec fn header_views(v: Seq<(String, String)>) -> Seq<(Seq<char>, Seq<char>)> {
    v.map_values(|h: (String, String)| (h.0@, h.1@))
}

/// Splits a `"Name: Value"` line at its first colon; `None` when it has none.
pub fn parse_header(line: &str) -> (r: Option<(String, String)>)
    ensures
        match r {
            Some(h) => split_header(line@) == Some((h.0@, h.1@)),
            None => split_header(line@) is None,
        },
{
    let n = line.unicode_len();
    let mut i: usize = 0;
    while i < n
        invariant
            n == line@.len(),
            i <= n,
            forall|j: int| 0 <= j < i ==> line@[j] != ':',
        decreases n - i,
    {
        if line.get_char(i) == ':' {
            proof {
                assert(is_first_colon(line@, i as int));
                let k = choose|k: int| is_first_colon(line@, k);
                assert(k == i as int);
            }
            let name = line.substring_char(0, i).to_owned();
            let value = line.substring_char(i + 1, n).to_owned();
            return Some((name, value));
        }
        i = i + 1;
    }
    None
}

/// The headers of `lines`, in order, skipping each line without a colon.
pub fn parse_headers(lines: &Vec<String>) -> (r: Vec<(String, String)>)
    ensures
        header_views(r@) == headers_of(string_views(lines@)),
{
    let mut r: Vec<(String, String)> = Vec::new();
    let mut i: usize = 0;
    while i < lines.len()
        invariant
            i <= lines@.len(),
            header_views(r@) == headers_of(string_views(lines@.take(i as int))),
        decreases lines@.len() - i,
    {
        let ghost pre = string_views(lines@.take(i as int));
        let ghost next = string_views(lines@.take(i as int + 1));
        proof {
            assert(next.drop_last() =~= pre);
            assert(next.last() == lines@[i as int]@);
        }
        match parse_header(lines[i].as_str()) {
            Some(h) => {
                let ghost old_r = r@;
                r.push(h);
                assert(header_views(r@) =~= header_views(old_r).push((h.0@, h.1@)));
            },
            None => {},
        }
        i = i + 1;
    }
    assert(lines@.take(i as int) =~= lines@);
    r
}

/// Number of workers to start: `concurrency` when it is positive, else none.
pub fn worker_count(concurrency: i32) -> (r: usize)
    ensures
        concurrency > 0 ==> r == concurrency,
        concurrency <= 0 ==> r == 0,
{
    if concurrency > 0 {
        concurrency as usize
    } else {
        0
    }
}

/// Shared parameters of every request of a run.
pub struct RequestSpec {
    pub url: String,
    pub method: HttpMethod,
    /// Extra headers, sent in this order after the `User-Agent` header.
    pub headers: Vec<(String, String)>,
    pub body: Option<String>,
    /// Deadline of each single call, in seconds.
    pub timeout_secs: u64,
    /// Number of workers.
    pub concurrency: usize,
}

impl RequestSpec {
    /// A request spec from raw inputs: header lines without a colon are
    /// skipped, and a non-positive `concurrency` starts no worker.
    pub fn new(
        url: String,
        method: HttpMethod,
        header_lines: &Vec<String>,
        body: Option<String>,
        timeout_secs: u64,
        concurrency: i32,
    ) -> (r: RequestSpec)
        ensures
            r.url == url,
            r.method == method,
            header_views(r.headers@) == headers_of(string_views(header_lines@)),
            r.body == body,
            r.timeout_secs == timeout_secs,
            concurrency > 0 ==> r.concurrency == concurrency,
            concurrency <= 0 ==> r.concurrency == 0,
    {
        RequestSpec {
            url,
            method,
            headers: parse_headers(header_lines),
            body,
            timeout_secs,
            concurrency: worker_count(concurrency),
        }
    }

    /// The body to attach: the given one when the method carries a body,
    /// else none.
    pub fn body_to_send(&self) -> (r: Option<&String>)
        ensures
            match r {
                Some(b) => self.method.carries_body_spec() && self.body == Some(*b),
                None => !self.method.carries_body_spec() || self.body is None,
            },
    {
        if self.method.carries_body() {
            match &self.body {
                Some(b) => Some(b),
                None => None,
            }
        } else {
            None
        }
    }
}

} // verus!
