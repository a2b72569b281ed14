//! The line protocol that a device speaks with the rendezvous server:
//! the request lines it sends and what it makes of the answers.
//!
//! Requests: `REGISTER <device> <endpoint>`, `HEARTBEAT <device>`,
//! `LOOKUP <device>`. Answers: `OK registered`, `OK heartbeat`,
//! `FOUND <endpoint>` or `NOT_FOUND`.

use crate::text::{same_text, starts_with, starts_with_spec, str_trim_end, trim_end_chars};
use vstd::prelude::*;
use vstd::string::{StrSliceExecFns, StringExecFns};

verus! {

#[verifier::external_type_specification]
#[verifier::external_body]
pub struct ExIoError(std::io::Error);

#[derive(Debug)]
pub enum RendezvousError {
    Io(std::io::Error),
    Protocol(String),
    InvalidEndpoint(String),
}

impl From<std::io::Error> for RendezvousError {
    fn from(error: std::io::Error) -> (r: Self) {
        RendezvousError::Io(error)
    }
}

impl vstd::std_specs::convert::FromSpecImpl<std::io::Error> for RendezvousError {
    open spec fn obeys_from_spec() -> bool {
        true
    }

    open spec fn from_spec(error: std::io::Error) -> Self {
        RendezvousError::Io(error)
    }
}

/// `REGISTER <device> <endpoint>`.
pub fn register_request(device_id: &str, endpoint: &str) -> (line: String)
    ensures
        line@ == "REGISTER "@ + device_id@ + " "@ + endpoint@,
{
    "REGISTER ".to_string().concat(device_id).concat(" ").concat(endpoint)
}

/// `HEARTBEAT <device>`.
pub fn heartbeat_request(device_id: &str) -> (line: String)
    ensures
        line@ == "HEARTBEAT "@ + device_id@,
{
    "HEARTBEAT ".to_string().concat(device_id)
}

/// `LOOKUP <device>`.
pub fn lookup_request(device_id: &str) -> (line: String)
    ensures
        line@ == "LOOKUP "@ + device_id@,
{
    "LOOKUP ".to_string().concat(device_id)
}

/// What a device makes of a raw answer line as read from the connection:
/// nothing read means the server closed the connection, and otherwise the
/// line without its trailing whitespace is the answer.
pub fn answer_line(raw: &str) -> (r: Result<String, RendezvousError>)
    ensures
        raw@.len() == 0 ==> (r matches Err(RendezvousError::Protocol(m)) && m@
            == "rendezvous server closed connection"@),
        raw@.len() > 0 ==> (r matches Ok(line) && line@ == trim_end_chars(raw@)),
{
    if raw.is_empty() {
        return Err(RendezvousError::Protocol("rendezvous server closed connection".to_string()));
    }
    Ok(str_trim_end(raw).to_string())
}

/// An answer that is exactly `expected` is success; any other is a protocol
/// error that carries the answer.
fn expect_answer(line: &str, expected: &str) -> (r: Result<(), RendezvousError>)
    ensures
        line@ == expected@ ==> r is Ok,
        line@ != expected@ ==> (r matches Err(RendezvousError::Protocol(m)) && m@ == line@),
{
    if same_text(line, expected) {
        Ok(())
    } else {
        Err(RendezvousError::Protocol(line.to_string()))
    }
}

/// The answer to `REGISTER`: `OK registered` is success.
pub fn parse_register_answer(line: &str) -> (r: Result<(), RendezvousError>)
    ensures
        line@ == "OK registered"@ ==> r is Ok,
        line@ != "OK registered"@ ==> (r matches Err(RendezvousError::Protocol(m)) && m@
            == line@),
{
    expect_answer(line, "OK registered")
}

/// The answer to `HEARTBEAT`: `OK heartbeat` is success.
pub fn parse_heartbeat_answer(line: &str) -> (r: Result<(), RendezvousError>)
    ensures
        line@ == "OK heartbeat"@ ==> r is Ok,
        line@ != "OK heartbeat"@ ==> (r matches Err(RendezvousError::Protocol(m)) && m@
            == line@),
{
    expect_answer(line, "OK heartbeat")
}

/// The answer to `LOOKUP`: `NOT_FOUND` is no endpoint, `FOUND <endpoint>`
/// gives the endpoint text (which the caller still parses as an address),
/// anything else is a protocol error.
pub fn parse_lookup_answer(line: &str) -> (r: Result<Option<String>, RendezvousError>)
    ensures
        line@ == "NOT_FOUND"@ ==> (r matches Ok(None)),
        line@ != "NOT_FOUND"@ && starts_with_spec(line@, "FOUND "@) ==> (r matches Ok(Some(e))
            && e@ == line@.skip("FOUND "@.len() as int)),
        line@ != "NOT_FOUND"@ && !starts_with_spec(line@, "FOUND "@) ==> (r matches Err(
            RendezvousError::Protocol(m),
        ) && m@ == line@),
{
    if same_text(line, "NOT_FOUND") {
        return Ok(None);
    }
    let prefix = "FOUND ";
    if !starts_with(line, prefix) {
        return Err(RendezvousError::Protocol(line.to_string()));
    }
    let n = line.unicode_len();
    let m = prefix.unicode_len();
    let endpoint = line.substring_char(m, n);
    assert(endpoint@ =~= line@.skip(m as int));
    Ok(Some(endpoint.to_string()))
}

} // verus!
