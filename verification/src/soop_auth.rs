//! The SOOP credential test: which credential is missing, and what the
//! Worker endpoint's answer means.
use crate::text::{chars_of, concat2, trim, trim_chars};
use vstd::prelude::*;

verus! {

/// The credentials the test needs, by label, in the order they are checked.
pub open spec fn credential_labels() -> Seq<Seq<char>> {
    seq!["SOOP username"@, "SOOP password"@, "Worker URL"@, "Worker API key"@]
}

/// The label of the first credential that is blank after trimming.
pub open spec fn first_missing(values: Seq<Seq<char>>) -> Option<int> {
    if trim(values[0]).len() == 0 {
        Some(0)
    } else if trim(values[1]).len() == 0 {
        Some(1)
    } else if trim(values[2]).len() == 0 {
        Some(2)
    } else if trim(values[3]).len() == 0 {
        Some(3)
    } else {
        None
    }
}

fn blank(s: &str) -> (r: bool)
    ensures
        r == (trim(s@).len() == 0),
{
    trim_chars(chars_of(s).as_slice()).len() == 0
}

/// The refusal of a credential test with a blank credential:
/// `<label> is not configured` for the first blank one, else `None`.
pub fn missing_credential(username: &str, password: &str, worker_url: &str, worker_key: &str) -> (r: Option<
    String,
>)
    ensures
        match first_missing(seq![username@, password@, worker_url@, worker_key@]) {
            Some(i) => r matches Some(m) && m@ == credential_labels()[i] + " is not configured"@,
            None => r is None,
        },
{
    let label: &str = if blank(username) {
        "SOOP username"
    } else if blank(password) {
        "SOOP password"
    } else if blank(worker_url) {
        "Worker URL"
    } else if blank(worker_key) {
        "Worker API key"
    } else {
        return None;
    };
    Some(concat2(label, " is not configured"))
}

/// What the Worker's HTTP status says of the API key.
#[derive(Debug, Clone, Copy, PartialEq, Eq, Structural)]
pub enum WorkerVerdict {
    /// The key was accepted (a 400 for the empty test body counts).
    Accepted,
    /// 401 or 403: the key was refused.
    KeyRefused,
    /// Any other failure status.
    Failed,
}

pub fn worker_verdict(status: u16) -> (r: WorkerVerdict)
    ensures
        (status == 401 || status == 403) ==> r == WorkerVerdict::KeyRefused,
        !(status == 401 || status == 403) && (status == 400 || 200 <= status <= 299) ==> r
            == WorkerVerdict::Accepted,
        !(status == 401 || status == 403 || status == 400 || 200 <= status <= 299) ==> r == WorkerVerdict::Failed,
{
    if status == 401 || status == 403 {
        WorkerVerdict::KeyRefused
    } else if status == 400 || (200 <= status && status <= 299) {
        WorkerVerdict::Accepted
    } else {
        WorkerVerdict::Failed
    }
}

} // verus!
