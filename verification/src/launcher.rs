//! The desktop launcher: the loopback endpoint it opens, and how it tells
//! a running Stream Archive server from another program on the port.
use crate::text::{
    chars_of, contains, contains_chars, decimal, digits_value, format_u64, parse_u64, parse_u64_spec,
    push_str, slice_vec, string_of,
};
use vstd::prelude::*;

verus! {

/// The marker in the server's page title.
pub const APP_MARKER: &'static str = "<title>Stream Archive</title>";

/// The last place `c` occurs in `s`.
pub open spec fn last_index(s: Seq<char>, c: char) -> Option<int> {
    if exists|i: int| 0 <= i < s.len() && s[i] == c {
        Some(choose|i: int| 0 <= i < s.len() && s[i] == c && forall|j: int| i < j < s.len() ==> s[j] != c)
    } else {
        None
    }
}

/// The port of a bind address: what follows its last `:` when that parses
/// as a port number, else 8787.
pub open spec fn endpoint_port(bind: Seq<char>) -> u16 {
    match last_index(bind, ':') {
        Some(i) => match parse_u64_spec(bind.skip(i + 1)) {
            Some(n) => if n <= 65535 {
                n as u16
            } else {
                8787
            },
            None => 8787,
        },
        None => 8787,
    }
}

/// Where the launcher finds the server.
#[derive(Debug, Clone)]
pub struct LocalEndpoint {
    pub port: u16,
    /// `127.0.0.1:<port>`.
    pub address: String,
    /// `http://127.0.0.1:<port>/`.
    pub url: String,
}

/// The loopback endpoint for the configured bind address (`127.0.0.1:8787`
/// when none is configured): always 127.0.0.1, on the configured port.
pub fn local_endpoint(bind: Option<&str>) -> (r: LocalEndpoint)
    ensures
        r.port == endpoint_port(
            match bind {
                Some(b) => b@,
                None => "127.0.0.1:8787"@,
            },
        ),
        r.address@ == "127.0.0.1:"@ + decimal(r.port as nat),
        r.url@ == "http://127.0.0.1:"@ + decimal(r.port as nat) + seq!['/'],
{
    let b: &str = match bind {
        Some(b) => b,
        None => "127.0.0.1:8787",
    };
    let v = chars_of(b);
    let mut i: usize = v.len();
    while i > 0 && v[i - 1] != ':'
        invariant
            i <= v.len(),
            forall|j: int| i <= j < v.len() ==> v@[j] != ':',
        decreases i,
    {
        i -= 1;
    }
    let port: u16 = if i == 0 {
        assert(!exists|j: int| 0 <= j < v@.len() && v@[j] == ':');
        8787
    } else {
        let k = i - 1;
        assert(v@[k as int] == ':');
        assert(last_index(v@, ':') == Some(k as int));
        let tail = string_of(slice_vec(v.as_slice(), i, v.len()).as_slice());
        assert(tail@ =~= v@.skip(i as int));
        match parse_u64(tail.as_str()) {
            Some(n) => if n <= 65535 {
                n as u16
            } else {
                8787
            },
            None => 8787,
        }
    };
    let digits = format_u64(port as u64);
    let mut address: Vec<char> = Vec::new();
    push_str(&mut address, "127.0.0.1:");
    push_str(&mut address, digits.as_str());
    let mut url: Vec<char> = Vec::new();
    push_str(&mut url, "http://127.0.0.1:");
    push_str(&mut url, digits.as_str());
    url.push('/');
    LocalEndpoint { port, address: string_of(address.as_slice()), url: string_of(url.as_slice()) }
}

/// What answered on the server's port.
#[derive(Debug, Clone, Copy, PartialEq, Eq, Structural)]
pub enum Probe {
    /// Nothing accepted the connection.
    Closed,
    /// A Stream Archive server.
    StreamArchive,
    /// Something else.
    Other,
}

/// What the response to the launcher's request shows: Stream Archive when
/// it holds the page marker or the product name.
pub fn probe_response(response: &str) -> (r: Probe)
    ensures
        r == (if contains(response@, "<title>Stream Archive</title>"@) || contains(response@, "Stream Archive"@) {
            Probe::StreamArchive
        } else {
            Probe::Other
        }),
{
    let v = chars_of(response);
    let a = chars_of("<title>Stream Archive</title>");
    let b = chars_of("Stream Archive");
    if contains_chars(v.as_slice(), a.as_slice()) || contains_chars(v.as_slice(), b.as_slice()) {
        Probe::StreamArchive
    } else {
        Probe::Other
    }
}

} // verus!
