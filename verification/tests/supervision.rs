use sidecar::log_sink::LogEvent;
use sidecar::log_sink::LogSink;
use sidecar::log_sink::StreamTag;
use sidecar::relay::ReadEvent;
use sidecar::relay::RelayStatus;
use sidecar::supervisor::Lifecycle;
use sidecar::supervisor::Platform;
use sidecar::supervisor::SidecarConfig;
use sidecar::supervisor::SpawnError;
use sidecar::supervisor::SpawnOutcome;
use sidecar::supervisor::Supervisor;
use sidecar::supervisor::resolve_executable;

fn backend_config(executable: &str) -> SidecarConfig {
    SidecarConfig {
        executable: executable.to_string(),
        args: vec![
            "-m".to_string(),
            "server".to_string(),
            "--host".to_string(),
            "127.0.0.1".to_string(),
            "--port".to_string(),
            "8000".to_string(),
        ],
        working_dir: "backend".to_string(),
    }
}

#[test]
fn successful_start_creates_both_relays() {
    let mut sup = Supervisor::new(backend_config("python3"));
    assert_eq!(sup.lifecycle, Lifecycle::NotStarted);
    sup.begin_start();
    assert_eq!(sup.lifecycle, Lifecycle::Spawning);
    let result = sup.finish_start(SpawnOutcome::Spawned { process_id: 42 });
    assert_eq!(sup.lifecycle, Lifecycle::Running { process_id: 42 });
    let mut pair = result.expect("a live process must hand back relays");
    let mut sink = LogSink::new();
    let s1 = pair
        .stdout
        .step(ReadEvent::Data(b"up\n".to_vec()), &mut sink);
    let s2 = pair
        .stderr
        .step(ReadEvent::Data(b"warn\n".to_vec()), &mut sink);
    assert_eq!(s1, RelayStatus::Active);
    assert_eq!(s2, RelayStatus::Active);
    assert_eq!(sink.len(), 2);
    match sink.event_at(0) {
        LogEvent::Line(line) => assert_eq!(line.tag, StreamTag::Stdout),
        other => panic!("expected a stdout line, got {:?}", other),
    }
    match sink.event_at(1) {
        LogEvent::Line(line) => assert_eq!(line.tag, StreamTag::Stderr),
        other => panic!("expected a stderr line, got {:?}", other),
    }
}

#[test]
fn missing_executable_yields_spawn_error_and_no_lines() {
    let mut sup = Supervisor::new(backend_config("/nonexistent/python"));
    sup.begin_start();
    let sink = LogSink::new();
    let result = sup.finish_start(SpawnOutcome::Failed {
        error: SpawnError::ExecutableNotFound,
    });
    assert_eq!(result.err(), Some(SpawnError::ExecutableNotFound));
    assert_eq!(sup.lifecycle, Lifecycle::NotStarted);
    assert_eq!(sink.len(), 0);
}

#[test]
fn every_spawn_error_variant_comes_back_unchanged() {
    let variants = vec![
        SpawnError::ExecutableNotFound,
        SpawnError::NotExecutable,
        SpawnError::InvalidWorkingDir,
        SpawnError::LaunchFailed,
    ];
    for error in variants {
        let mut sup = Supervisor::new(backend_config("python3"));
        sup.begin_start();
        let result = sup.finish_start(SpawnOutcome::Failed { error });
        assert_eq!(result.err(), Some(error));
        assert_eq!(sup.lifecycle, Lifecycle::NotStarted);
    }
}

#[test]
fn exit_code_is_recorded() {
    let mut sup = Supervisor::new(backend_config("python3"));
    sup.begin_start();
    let _ = sup.finish_start(SpawnOutcome::Spawned { process_id: 7 });
    sup.record_exit(3);
    assert_eq!(sup.lifecycle, Lifecycle::Exited { exit_code: 3 });
}

#[test]
fn whole_lifetime_ends_without_escalation() {
    let mut sup = Supervisor::new(backend_config("python3"));
    sup.begin_start();
    let mut pair = sup
        .finish_start(SpawnOutcome::Spawned { process_id: 9 })
        .expect("spawned");
    let mut sink = LogSink::new();
    pair.stdout
        .step(ReadEvent::Data(b"serving\n".to_vec()), &mut sink);
    pair.stderr.step(ReadEvent::Data(b"note\n".to_vec()), &mut sink);
    let out_end = pair.stdout.step(ReadEvent::Eof, &mut sink);
    let err_end = pair.stderr.step(ReadEvent::Eof, &mut sink);
    assert_eq!(out_end, RelayStatus::EndOfStream);
    assert_eq!(err_end, RelayStatus::EndOfStream);
    sup.record_exit(0);
    assert_eq!(sup.lifecycle, Lifecycle::Exited { exit_code: 0 });
    assert_eq!(sink.len(), 2);
}

#[test]
fn executable_resolution_is_keyed_by_platform() {
    let win = resolve_executable(
        Platform::Windows,
        "venv\\Scripts\\python.exe".to_string(),
        "venv/bin/python".to_string(),
    );
    assert_eq!(win, "venv\\Scripts\\python.exe");
    let posix = resolve_executable(
        Platform::Posix,
        "venv\\Scripts\\python.exe".to_string(),
        "venv/bin/python".to_string(),
    );
    assert_eq!(posix, "venv/bin/python");
}
