use exec_protocol::buffer::HeadTailBuffer;
use exec_protocol::subprocess::{
    drain_receiver, exit_code_after_wait, normalize_exit_code, push_output_chunk, ExitInfo,
    OutputChunk, RunAction, RunEvent, RunState, Stream,
};
use std::time::Duration;

fn chunk(stream: Stream, data: &[u8]) -> OutputChunk {
    OutputChunk { stream, data: data.to_vec() }
}

#[test]
fn output_is_routed_by_stream() {
    let mut stdout = HeadTailBuffer::new(16);
    let mut stderr = HeadTailBuffer::new(16);
    push_output_chunk(chunk(Stream::Stderr, b"err"), &mut stdout, &mut stderr);
    drain_receiver(
        vec![chunk(Stream::Stdout, b"he"), chunk(Stream::Stderr, b"!"), chunk(Stream::Stdout, b"llo")],
        &mut stdout,
        &mut stderr,
    );
    assert_eq!(stdout.to_bytes(), b"hello".to_vec());
    assert_eq!(stderr.to_bytes(), b"err!".to_vec());
}

#[test]
fn run_truncates_stdout_and_stderr_independently() {
    let mut state = RunState::new(6);
    state.absorb(vec![chunk(Stream::Stdout, b"abcdefghij"), chunk(Stream::Stderr, b"klmnopqrst")]);
    assert_eq!(state.after_drain(true), RunAction::GraceThenContinue);
    assert_eq!(state.after_drain(true), RunAction::Finish);
    let output = state.finish(Some(0), Duration::from_millis(5));
    assert_eq!(output.stdout, b"abchij".to_vec());
    assert_eq!(output.stderr, b"klmrst".to_vec());
    assert_eq!(output.stdout_omitted_bytes, 4);
    assert_eq!(output.stderr_omitted_bytes, 4);
    assert_eq!(output.stdout_head_bytes, 3);
    assert_eq!(output.stderr_head_bytes, 3);
    assert_eq!(output.exit_code, Some(0));
    assert!(!output.timed_out);
    assert_eq!(output.wall_time, Duration::from_millis(5));
}

#[test]
fn deadline_terminates_and_drops_exit_code() {
    let mut state = RunState::new(1024);
    assert_eq!(state.after_drain(false), RunAction::AwaitEvent);
    assert_eq!(
        state.on_event(RunEvent::Output(Some(chunk(Stream::Stdout, b"start\n")))),
        RunAction::Continue
    );
    assert_eq!(state.on_event(RunEvent::Output(None)), RunAction::Continue);
    assert_eq!(state.on_event(RunEvent::DeadlineReached), RunAction::TerminateThenFinish);
    let output = state.finish(Some(-9), Duration::from_millis(100));
    assert_eq!(output.stdout, b"start\n".to_vec());
    assert!(output.timed_out);
    assert_eq!(output.exit_code, None);
}

#[test]
fn exit_event_leads_to_finish() {
    let mut state = RunState::new(8);
    assert_eq!(state.on_event(RunEvent::Exited), RunAction::GraceThenContinue);
    state.absorb(vec![chunk(Stream::Stdout, b"done")]);
    assert_eq!(state.after_drain(false), RunAction::Finish);
    assert_eq!(state.stdout().to_bytes(), b"done".to_vec());
    assert_eq!(state.finish(Some(3), Duration::ZERO).exit_code, Some(3));
}

#[test]
fn exit_codes_are_normalized() {
    assert_eq!(normalize_exit_code(ExitInfo { code: Some(2), signal: None }), 2);
    assert_eq!(normalize_exit_code(ExitInfo { code: None, signal: Some(9) }), 137);
    assert_eq!(normalize_exit_code(ExitInfo { code: None, signal: None }), -1);
    assert_eq!(exit_code_after_wait(Some(ExitInfo { code: Some(0), signal: None })), Some(0));
    assert_eq!(exit_code_after_wait(None), Some(-1));
}
