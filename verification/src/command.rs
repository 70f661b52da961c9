//! The external-command gateway's decision half.
//!
//! The library never spawns a process itself.  The unverified shell around it
//! runs each command line against the host with its error stream discarded,
//! and hands back the captured standard output as `Some(bytes)`, or `None`
//! when the process could not be spawned or awaited at all.  Everything that
//! can be decided from that capture — decoding, trimming, the lenient
//! empty-output policy — is decided here.

use vstd::prelude::*;

use crate::text::chars_vec;
use crate::text::split_char;
use crate::text::split_parts;
use crate::text::trim_bounds;
use crate::text::trimmed;
use vstd::string::StrSliceExecFns;
use vstd::string::StringExecFns;
use vstd::utf8::decode_utf8;
use vstd::utf8::valid_utf8;

verus! {

/// The errors a launch can surface to its caller.
#[derive(Clone, Copy, Debug, PartialEq, Eq, Structural)]
pub enum Error {
    /// A command's output was not valid text.
    InvalidOutput,
    /// No `address:port` token was found in the port query's output.
    PortParseFailure,
}

impl Error {
    /// A human-readable description of the error.
    pub fn message(&self) -> (r: &'static str)
        ensures
            *self == Error::InvalidOutput ==> r@ == "Command output was invalid format (non utf-8)"@,
            *self == Error::PortParseFailure ==> r@
                == "Failed to parse exposed ports, is your docker daemon running?"@,
    {
        match self {
            Error::InvalidOutput => "Command output was invalid format (non utf-8)",
            Error::PortParseFailure => "Failed to parse exposed ports, is your docker daemon running?",
        }
    }
}

/// What one command round-trip yields: `None` stands for a process that
/// could not be spawned or awaited, and deliberately degenerates to empty
/// text rather than an error, so that the real failure surfaces later as a
/// parse failure; captured bytes are decoded and trimmed, and are an error
/// exactly when they are not valid text.
pub open spec fn command_text(captured: Option<Seq<u8>>) -> Result<Seq<char>, Error> {
    match captured {
        None => Ok(Seq::empty()),
        Some(bytes) => if valid_utf8(bytes) {
            Ok(trimmed(decode_utf8(bytes)))
        } else {
            Err(Error::InvalidOutput)
        },
    }
}

/// Relies on `String::from_utf8`: yields the decoded string exactly when the
/// bytes are valid UTF-8, and nothing otherwise.
#[verifier::external_body]
fn bytes_to_string(bytes: Vec<u8>) -> (r: Option<String>)
    ensures
        r is Some <==> valid_utf8(bytes@),
        r matches Some(s) ==> s@ == decode_utf8(bytes@),
{
    String::from_utf8(bytes).ok()
}

/// Digest the capture of one command into its text: decode it and trim the
/// surrounding white space.  A process that never ran (`None`) counts as
/// empty output, not as an error.
pub fn run_cmd_to_output(captured: Option<Vec<u8>>) -> (r: Result<String, Error>)
    ensures
        match r {
            Ok(text) => command_text(captured.deep_view()) == Ok::<Seq<char>, Error>(text@),
            Err(e) => command_text(captured.deep_view()) == Err::<Seq<char>, Error>(e),
        },
{
    match captured {
        None => Ok(String::new()),
        Some(bytes) => {
            proof {
                assert(bytes.deep_view() =~= bytes@);
            }
            match bytes_to_string(bytes) {
                None => Err(Error::InvalidOutput),
                Some(text) => {
                    let v = chars_vec(text.as_str());
                    let (a, b) = trim_bounds(&v);
                    let out = String::from_str(text.as_str().substring_char(a, b));
                    Ok(out)
                },
            }
        },
    }
}

/// Digest the capture of one command when only success matters: the output is
/// discarded, and only an undecodable capture is an error.
pub fn run_cmd(captured: Option<Vec<u8>>) -> (r: Result<(), Error>)
    ensures
        r is Ok <==> command_text(captured.deep_view()) is Ok,
        r matches Err(e) ==> command_text(captured.deep_view()) == Err::<Seq<char>, Error>(e),
{
    match run_cmd_to_output(captured) {
        Ok(_) => Ok(()),
        Err(e) => Err(e),
    }
}

/// A command line split into its program and arguments: the tokens between
/// single spaces, empties kept, exactly as the gateway hands them to the
/// host.
pub fn split_command(cmd: &str) -> (parts: Vec<String>)
    ensures
        parts.deep_view() == split_char(cmd@, ' '),
        parts@.len() >= 1,
{
    let v = chars_vec(cmd);
    let bounds = split_parts(&v, 0, v.len(), ' ');
    proof {
        assert(v@.subrange(0, v@.len() as int) =~= v@);
    }
    let mut parts: Vec<String> = Vec::new();
    let mut k: usize = 0;
    while k < bounds.len()
        invariant
            k <= bounds@.len(),
            v@ == cmd@,
            bounds@.len() == split_char(cmd@, ' ').len(),
            forall|j: int|
                0 <= j < bounds@.len() ==> 0 <= (#[trigger] bounds@[j]).0 <= bounds@[j].1
                    <= cmd@.len() && v@.subrange(bounds@[j].0 as int, bounds@[j].1 as int)
                    == split_char(cmd@, ' ')[j],
            parts@.len() == k,
            forall|j: int| 0 <= j < k ==> (#[trigger] parts@[j])@ == split_char(cmd@, ' ')[j],
        decreases bounds@.len() - k,
    {
        let (a, b) = bounds[k];
        parts.push(String::from_str(cmd.substring_char(a, b)));
        k += 1;
    }
    proof {
        assert(parts.deep_view() =~~= split_char(cmd@, ' '));
    }
    parts
}

/// The command that starts the database container: detached, removed by the
/// runtime once stopped, trusting every connection (fit only for ephemeral
/// test instances), with the database port published to a runtime-assigned
/// host port.  Its output is the new container's identity token.
pub open spec fn start_command_text() -> Seq<char> {
    "docker run --rm -d -e POSTGRES_HOST_AUTH_METHOD=trust -p 5432 postgres"@
}

pub fn start_command() -> (r: &'static str)
    ensures
        r@ == start_command_text(),
{
    "docker run --rm -d -e POSTGRES_HOST_AUTH_METHOD=trust -p 5432 postgres"
}

/// The command that asks the runtime which host port it published for the
/// container's database port.  Its output holds `address:port` tokens.
pub open spec fn port_query_command_text(identity: Seq<char>) -> Seq<char> {
    "docker container port "@ + identity + " 5432"@
}

pub fn port_query_command(identity: &str) -> (r: String)
    ensures
        r@ == port_query_command_text(identity@),
{
    let mut out = String::from_str("docker container port ");
    out.append(identity);
    out.append(" 5432");
    out
}

/// The command that stops the container named by `identity`.
pub open spec fn stop_command_text(identity: Seq<char>) -> Seq<char> {
    "docker stop "@ + identity
}

pub fn stop_command(identity: &str) -> (r: String)
    ensures
        r@ == stop_command_text(identity@),
{
    let mut out = String::from_str("docker stop ");
    out.append(identity);
    out
}

/// The command that removes the container named by `identity`.
pub open spec fn remove_command_text(identity: Seq<char>) -> Seq<char> {
    "docker rm "@ + identity
}

pub fn remove_command(identity: &str) -> (r: String)
    ensures
        r@ == remove_command_text(identity@),
{
    let mut out = String::from_str("docker rm ");
    out.append(identity);
    out
}

} // verus!
