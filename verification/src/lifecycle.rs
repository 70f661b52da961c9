//! The resource handle and the launch protocol.
//!
//! A launch is a short sequence of runtime commands: start the container,
//! query the port the runtime published, parse the endpoint out of the
//! query's output, then sit out a settling delay.  The decisions of that
//! sequence — which command to run next, how each captured output moves the
//! state forward — are all made here, as a step function over `LaunchStep`.
//! The unverified shell around the library owns only the side effects: it
//! runs each requested command, hands the capture back, and on drop runs the
//! two teardown commands, never letting either failure propagate.

use vstd::prelude::*;

use crate::command::command_text;
use crate::command::port_query_command;
use crate::command::port_query_command_text;
use crate::command::remove_command;
use crate::command::remove_command_text;
use crate::command::run_cmd_to_output;
use crate::command::start_command;
use crate::command::start_command_text;
use crate::command::stop_command;
use crate::command::stop_command_text;
use crate::command::Error;
use crate::endpoint::endpoint_text;
use crate::endpoint::first_endpoint;
use crate::endpoint::parse_first_endpoint;
use crate::endpoint::Endpoint;
use crate::endpoint::EndpointModel;
use vstd::string::StringExecFns;

verus! {

/// The mathematical content of a handle: the container's identity token and
/// the endpoint it listens on.
pub ghost struct PostgresModel {
    pub identity: Seq<char>,
    pub endpoint: EndpointModel,
}

/// A handle to one running, ephemeral database container.  The handle owns
/// the container: its identity token is non-empty and its endpoint was
/// confirmed syntactically before the handle existed.
pub struct Postgres {
    container_id: String,
    socket_addr: Endpoint,
}

impl View for Postgres {
    type V = PostgresModel;

    closed spec fn view(&self) -> PostgresModel {
        PostgresModel { identity: self.container_id@, endpoint: self.socket_addr@ }
    }
}

impl Postgres {
    #[verifier::type_invariant]
    spec fn wf(self) -> bool {
        self.container_id@.len() > 0
    }

    /// The identity token the runtime gave the container; never empty.
    pub fn identity(&self) -> (r: &String)
        ensures
            r@ == self@.identity,
            r@.len() > 0,
    {
        proof {
            use_type_invariant(self);
        }
        &self.container_id
    }

    /// The endpoint the container listens on.
    pub fn socket_addr(&self) -> (r: &Endpoint)
        ensures
            r@ == self@.endpoint,
    {
        &self.socket_addr
    }

    /// The endpoint as display text, `host:port`.
    pub fn address(&self) -> (r: String)
        ensures
            r@ == endpoint_text(self@.endpoint),
    {
        self.socket_addr.to_text()
    }
}

/// Where a launch stands, between two side effects.
pub enum LaunchStep {
    /// Nothing has run yet; the start command is next.
    Start,
    /// The container was started; the port query is next.
    QueryPort { container_id: String },
    /// The endpoint is known; the settling delay is next.
    Settle { container_id: String, endpoint: Endpoint },
    /// The launch succeeded and the handle is ready.
    Ready { handle: Postgres },
    /// The launch aborted with a typed error.
    Failed { error: Error },
}

/// What the caller must do next for a given step.
pub enum LaunchAction {
    /// Run this command line against the host, error stream discarded, and
    /// feed the captured standard output back in.
    RunCommand { command: String },
    /// Sleep this long — a crude stand-in for an active readiness probe —
    /// then feed `None` back in.
    Wait { millis: u64 },
    /// The launch is over; the step holds the handle or the error.
    Finished,
}

/// The settling delay, in milliseconds, granted to the database after its
/// port is published and before the handle is declared ready.
pub const SETTLE_DELAY_MILLIS: u64 = 2000;

/// A step the library could itself have produced: identity tokens on their
/// way into a handle are never empty.
pub open spec fn step_wf(s: LaunchStep) -> bool {
    match s {
        LaunchStep::Start => true,
        LaunchStep::QueryPort { container_id } => container_id@.len() > 0,
        LaunchStep::Settle { container_id, endpoint } => container_id@.len() > 0,
        LaunchStep::Ready { handle } => true,
        LaunchStep::Failed { error } => true,
    }
}

/// `step_wf`, executably, for callers outside the library that must test it
/// before feeding a step back in.
pub fn step_ok(s: &LaunchStep) -> (r: bool)
    ensures
        r == step_wf(*s),
{
    match s {
        LaunchStep::QueryPort { container_id } => !container_id.as_str().is_empty(),
        LaunchStep::Settle { container_id, endpoint } => !container_id.as_str().is_empty(),
        _ => true,
    }
}

/// How one captured output moves a launch forward.
pub open spec fn launch_transition(
    s: LaunchStep,
    captured: Option<Seq<u8>>,
    t: LaunchStep,
) -> bool {
    match s {
        LaunchStep::Start => match command_text(captured) {
            Err(e) => t == LaunchStep::Failed { error: e },
            Ok(text) => if text.len() == 0 {
                t == LaunchStep::Failed { error: Error::PortParseFailure }
            } else {
                t matches LaunchStep::QueryPort { container_id } && container_id@ == text
            },
        },
        LaunchStep::QueryPort { container_id: id } => match command_text(captured) {
            Err(e) => t == LaunchStep::Failed { error: e },
            Ok(text) => match first_endpoint(text) {
                Some(em) => t matches LaunchStep::Settle { container_id, endpoint }
                    && container_id@ == id@ && endpoint@ == em,
                None => t == LaunchStep::Failed { error: Error::PortParseFailure },
            },
        },
        LaunchStep::Settle { container_id: id, endpoint } => t matches LaunchStep::Ready {
            handle,
        } && handle@.identity == id@ && handle@.endpoint == endpoint@,
        LaunchStep::Ready { handle } => t == s,
        LaunchStep::Failed { error } => t == s,
    }
}

/// A fresh launch, about to run the start command.
pub fn launch_begin() -> (s: LaunchStep)
    ensures
        s == LaunchStep::Start,
{
    LaunchStep::Start
}

/// The side effect the caller owes the current step.
pub fn launch_action(s: &LaunchStep) -> (a: LaunchAction)
    ensures
        match s {
            LaunchStep::Start => a matches LaunchAction::RunCommand { command } && command@
                == start_command_text(),
            LaunchStep::QueryPort { container_id } => a matches LaunchAction::RunCommand {
                command,
            } && command@ == port_query_command_text(container_id@),
            LaunchStep::Settle { .. } => a == (LaunchAction::Wait {
                millis: SETTLE_DELAY_MILLIS,
            }),
            LaunchStep::Ready { .. } => a == LaunchAction::Finished,
            LaunchStep::Failed { .. } => a == LaunchAction::Finished,
        },
{
    match s {
        LaunchStep::Start => LaunchAction::RunCommand {
            command: String::from_str(start_command()),
        },
        LaunchStep::QueryPort { container_id } => LaunchAction::RunCommand {
            command: port_query_command(container_id.as_str()),
        },
        LaunchStep::Settle { .. } => LaunchAction::Wait { millis: SETTLE_DELAY_MILLIS },
        LaunchStep::Ready { .. } => LaunchAction::Finished,
        LaunchStep::Failed { .. } => LaunchAction::Finished,
    }
}

/// Feed the captured output of the requested side effect back in, and move
/// the launch one step forward.  Any failure aborts the launch with the
/// originating error; an empty identity from the start command means the
/// runtime is unreachable, and surfaces as the same parse failure the port
/// query would produce.
pub fn launch_advance(s: LaunchStep, captured: Option<Vec<u8>>) -> (t: LaunchStep)
    requires
        step_wf(s),
    ensures
        step_wf(t),
        launch_transition(s, captured.deep_view(), t),
{
    match s {
        LaunchStep::Start => match run_cmd_to_output(captured) {
            Err(e) => LaunchStep::Failed { error: e },
            Ok(text) => {
                if text.as_str().is_empty() {
                    LaunchStep::Failed { error: Error::PortParseFailure }
                } else {
                    LaunchStep::QueryPort { container_id: text }
                }
            },
        },
        LaunchStep::QueryPort { container_id } => match run_cmd_to_output(captured) {
            Err(e) => LaunchStep::Failed { error: e },
            Ok(text) => match parse_first_endpoint(text.as_str()) {
                Ok(endpoint) => LaunchStep::Settle { container_id, endpoint },
                Err(e) => LaunchStep::Failed { error: e },
            },
        },
        LaunchStep::Settle { container_id, endpoint } => LaunchStep::Ready {
            handle: Postgres { container_id, socket_addr: endpoint },
        },
        LaunchStep::Ready { handle } => LaunchStep::Ready { handle },
        LaunchStep::Failed { error } => LaunchStep::Failed { error },
    }
}

/// Both teardown commands for the container named `identity`, in the order
/// they must run: stop it, then remove it (redundant next to the runtime's
/// remove-on-stop, kept as defense in depth).  Teardown decisions are total:
/// they hold for any identity, however often they are retaken, and the
/// caller runs both commands regardless of either's failure.
pub fn teardown_commands(identity: &str) -> (r: (String, String))
    ensures
        r.0@ == stop_command_text(identity@),
        r.1@ == remove_command_text(identity@),
{
    (stop_command(identity), remove_command(identity))
}

} // verus!
