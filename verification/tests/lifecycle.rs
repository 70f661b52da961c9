use ephemeral_pg::command::port_query_command;
use ephemeral_pg::command::remove_command;
use ephemeral_pg::command::split_command;
use ephemeral_pg::command::start_command;
use ephemeral_pg::command::stop_command;
use ephemeral_pg::lifecycle::launch_action;
use ephemeral_pg::lifecycle::launch_advance;
use ephemeral_pg::lifecycle::launch_begin;
use ephemeral_pg::lifecycle::teardown_commands;
use ephemeral_pg::lifecycle::SETTLE_DELAY_MILLIS;
use ephemeral_pg::run_cmd;
use ephemeral_pg::run_cmd_to_output;
use ephemeral_pg::Error;
use ephemeral_pg::LaunchAction;
use ephemeral_pg::LaunchStep;

#[test]
fn gateway_spawn_failure_is_empty_output() {
    assert_eq!(run_cmd_to_output(None).unwrap(), String::new());
    assert!(run_cmd(None).is_ok());
}

#[test]
fn gateway_trims_output() {
    let captured = Some(b"  abc123\n".to_vec());
    assert_eq!(run_cmd_to_output(captured).unwrap(), "abc123".to_string());
}

#[test]
fn gateway_rejects_non_text_output() {
    let captured = Some(vec![0xff, 0xfe, 0x00, 0x80]);
    assert_eq!(run_cmd_to_output(captured).unwrap_err(), Error::InvalidOutput);
    assert_eq!(run_cmd(Some(vec![0xff])).unwrap_err(), Error::InvalidOutput);
}

#[test]
fn error_messages() {
    assert_eq!(Error::InvalidOutput.message(), "Command output was invalid format (non utf-8)");
    assert_eq!(
        Error::PortParseFailure.message(),
        "Failed to parse exposed ports, is your docker daemon running?"
    );
}

#[test]
fn command_lines() {
    assert_eq!(
        start_command(),
        "docker run --rm -d -e POSTGRES_HOST_AUTH_METHOD=trust -p 5432 postgres"
    );
    assert_eq!(
        port_query_command("abc123").as_str(),
        "docker container port abc123 5432"
    );
    assert_eq!(stop_command("abc123").as_str(), "docker stop abc123");
    assert_eq!(remove_command("abc123").as_str(), "docker rm abc123");
}

#[test]
fn command_splitting() {
    let parts = split_command("docker run --rm postgres");
    let words: Vec<&str> = parts.iter().map(|p| p.as_str()).collect();
    assert_eq!(words, vec!["docker", "run", "--rm", "postgres"]);
    // Single-space splitting keeps empty tokens, as the gateway hands them on.
    let parts = split_command("a  b");
    let words: Vec<&str> = parts.iter().map(|p| p.as_str()).collect();
    assert_eq!(words, vec!["a", "", "b"]);
}

fn run_command_text(step: &LaunchStep) -> String {
    match launch_action(step) {
        LaunchAction::RunCommand { command } => command,
        _ => panic!("expected a command to run"),
    }
}

#[test]
fn launch_happy_path() {
    let step = launch_begin();
    assert_eq!(
        run_command_text(&step).as_str(),
        "docker run --rm -d -e POSTGRES_HOST_AUTH_METHOD=trust -p 5432 postgres"
    );
    let step = launch_advance(step, Some(b"abc123\n".to_vec()));
    assert_eq!(
        run_command_text(&step).as_str(),
        "docker container port abc123 5432"
    );
    let step = launch_advance(step, Some(b"0.0.0.0:55837\n".to_vec()));
    match launch_action(&step) {
        LaunchAction::Wait { millis } => assert_eq!(millis, SETTLE_DELAY_MILLIS),
        _ => panic!("expected the settling delay"),
    }
    let step = launch_advance(step, None);
    assert!(matches!(launch_action(&step), LaunchAction::Finished));
    match step {
        LaunchStep::Ready { handle } => {
            assert_eq!(handle.identity().as_str(), "abc123");
            assert_eq!(handle.address().as_str(), "0.0.0.0:55837");
            assert_eq!(handle.socket_addr().port(), 55837);
        },
        _ => panic!("expected a ready handle"),
    }
}

#[test]
fn launch_fails_when_runtime_unreachable() {
    // The start command could not even be spawned: empty output, and the
    // failure surfaces at the parse step's error.
    let step = launch_advance(launch_begin(), None);
    match step {
        LaunchStep::Failed { error } => assert_eq!(error, Error::PortParseFailure),
        _ => panic!("expected a failed launch"),
    }
}

#[test]
fn launch_fails_on_non_text_identity() {
    let step = launch_advance(launch_begin(), Some(vec![0xff, 0xfe]));
    match step {
        LaunchStep::Failed { error } => assert_eq!(error, Error::InvalidOutput),
        _ => panic!("expected a failed launch"),
    }
}

#[test]
fn launch_fails_on_unparseable_port_query() {
    let step = launch_advance(launch_begin(), Some(b"abc123\n".to_vec()));
    let step = launch_advance(step, Some(b"Error: no such container\n".to_vec()));
    match step {
        LaunchStep::Failed { error } => assert_eq!(error, Error::PortParseFailure),
        _ => panic!("expected a failed launch"),
    }
}

#[test]
fn failed_launch_stays_failed() {
    let step = launch_advance(launch_begin(), None);
    let step = launch_advance(step, Some(b"anything".to_vec()));
    assert!(matches!(step, LaunchStep::Failed { .. }));
    assert!(matches!(launch_action(&step), LaunchAction::Finished));
}

#[test]
fn teardown_is_repeatable() {
    // Teardown decisions are total: retaking them for the same identity gives
    // the same two commands, and digesting a failed command's capture never
    // panics — the second stop or remove of a gone container simply fails and
    // is logged by the caller.
    let (stop1, rm1) = teardown_commands("abc123");
    let (stop2, rm2) = teardown_commands("abc123");
    assert_eq!(stop1.as_str(), "docker stop abc123");
    assert_eq!(rm1.as_str(), "docker rm abc123");
    assert_eq!(stop1, stop2);
    assert_eq!(rm1, rm2);
    for _ in 0..2 {
        assert!(run_cmd(None).is_ok());
        assert!(run_cmd(Some(b"Error: no such container: abc123\n".to_vec())).is_ok());
    }
}
