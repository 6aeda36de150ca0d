use octoterm::conn::{
    after_lag, control_action, hello_verdict, input_error, pump_step, replay_replies, resync_attach_replies, resync_replies, After, ControlAction,
    Outgoing, PumpEvent, COALESCE_MAX,
};
use octoterm::protocol::messages::{AttachMode, ClientMsg, ServerMsg};
use octoterm::session::spawn::Snapshot;

fn data(end_seq: u64, bytes: &[u8]) -> PumpEvent {
    PumpEvent::Data { end_seq, bytes: bytes.to_vec() }
}

#[test]
fn a_burst_is_coalesced_into_one_frame() {
    let mut wm = 0;
    let (frames, after) = pump_step(&mut wm, data(3, b"abc"), &[data(5, b"de"), PumpEvent::Idle]);
    assert_eq!(frames, vec![b"abcde".to_vec()]);
    assert_eq!(after, After::Continue);
    assert_eq!(wm, 5);
}

#[test]
fn already_delivered_bytes_are_dropped_from_a_burst() {
    let mut wm = 4;
    let (frames, _) = pump_step(&mut wm, data(3, b"abc"), &[data(6, b"def")]);
    assert_eq!(frames, vec![b"ef".to_vec()]);
    assert_eq!(wm, 6);
    let mut wm = 10;
    let (frames, after) = pump_step(&mut wm, data(3, b"abc"), &[]);
    assert!(frames.is_empty());
    assert_eq!(after, After::Continue);
    assert_eq!(wm, 10);
}

#[test]
fn a_frame_never_grows_past_the_limit_by_coalescing() {
    let big = vec![b'x'; COALESCE_MAX - 1];
    let mut wm = 0;
    let end1 = big.len() as u64;
    let (frames, _) = pump_step(&mut wm, data(end1, &big), &[data(end1 + 2, b"yz")]);
    assert_eq!(frames.len(), 2);
    assert_eq!(frames[0].len(), COALESCE_MAX - 1);
    assert_eq!(frames[1], b"yz".to_vec());
}

#[test]
fn a_resize_in_a_burst_ends_it_after_the_frames() {
    let mut wm = 0;
    let (frames, after) =
        pump_step(&mut wm, data(1, b"a"), &[PumpEvent::Resized { cols: 100, rows: 30 }, data(2, b"b")]);
    assert_eq!(frames, vec![b"a".to_vec()]);
    assert_eq!(after, After::Resized { cols: 100, rows: 30 });
    assert_eq!(wm, 1);
}

#[test]
fn exit_and_lag_end_a_burst() {
    let mut wm = 0;
    assert_eq!(pump_step(&mut wm, data(1, b"a"), &[PumpEvent::Exited]).1, After::Exited);
    assert_eq!(pump_step(&mut wm, data(2, b"b"), &[PumpEvent::Lagged]).1, After::Resync);
    assert_eq!(pump_step(&mut wm, PumpEvent::Lagged, &[]).1, After::Resync);
    assert_eq!(pump_step(&mut wm, PumpEvent::Exited, &[]).1, After::Exited);
    assert_eq!(pump_step(&mut wm, PumpEvent::Idle, &[]).1, After::Stop);
    assert_eq!(pump_step(&mut wm, PumpEvent::Resized { cols: 1, rows: 2 }, &[]), (vec![], After::Resized { cols: 1, rows: 2 }));
}

#[test]
fn an_exit_met_while_draining_wins_over_resync() {
    assert_eq!(after_lag(&[data(1, b"a"), PumpEvent::Exited]), After::Exited);
    assert_eq!(after_lag(&[data(1, b"a"), PumpEvent::Resized { cols: 1, rows: 1 }, PumpEvent::Idle]), After::Resync);
    assert_eq!(after_lag(&[PumpEvent::Idle, PumpEvent::Exited]), After::Resync);
    assert_eq!(after_lag(&[]), After::Resync);
}

fn fail_of(a: ControlAction) -> (String, Option<u32>) {
    match a {
        ControlAction::Fail { message, channel } => (message, channel),
        _ => panic!("expected an error"),
    }
}

#[test]
fn control_messages_are_checked_against_the_attached_channels() {
    assert_eq!(
        fail_of(control_action(ClientMsg::Hello { token: "t".into(), proto: 1 }, &[])),
        ("already authenticated".to_string(), None)
    );
    let attach = |channel| ClientMsg::Attach { id: 1, channel, last_seq: None, cols: 80, rows: 24 };
    assert_eq!(fail_of(control_action(attach(0), &[])), ("channel unavailable".to_string(), Some(0)));
    assert_eq!(fail_of(control_action(attach(3), &[3])), ("channel unavailable".to_string(), Some(3)));
    assert!(matches!(control_action(attach(4), &[3]), ControlAction::Attach { channel: 4, .. }));
    assert_eq!(fail_of(control_action(ClientMsg::Detach { channel: 9 }, &[3])), ("no such channel".to_string(), Some(9)));
    assert!(matches!(control_action(ClientMsg::Detach { channel: 3 }, &[3]), ControlAction::Detach { channel: 3 }));
    assert_eq!(
        fail_of(control_action(ClientMsg::Resize { channel: 9, cols: 1, rows: 1 }, &[])),
        ("no such channel".to_string(), Some(9))
    );
    assert!(matches!(control_action(ClientMsg::KillSession { id: 7 }, &[]), ControlAction::KillSession { id: 7 }));
    assert!(matches!(control_action(ClientMsg::ListSessions, &[]), ControlAction::ListSessions));
}

fn snap() -> Snapshot {
    Snapshot { end_seq: 42, repaint: b"\x1b[2J".to_vec(), cols: 100, rows: 30 }
}

#[test]
fn a_resync_sends_size_then_the_repaint_between_markers() {
    let (out, wm) = resync_replies(5, snap());
    assert_eq!(wm, 42);
    assert!(matches!(&out[0], Outgoing::Control(ServerMsg::Resized { channel: 5, cols: 100, rows: 30 })));
    assert!(matches!(&out[1], Outgoing::Control(ServerMsg::ResyncBegin { channel: 5 })));
    assert!(matches!(&out[2], Outgoing::Data { channel: 5, bytes } if bytes == b"\x1b[2J"));
    assert!(matches!(&out[3], Outgoing::Control(ServerMsg::ResyncEnd { channel: 5, seq: 42 })));
    let (out, _) = resync_attach_replies(5, snap());
    assert_eq!(out.len(), 5);
    assert!(matches!(&out[0], Outgoing::Control(ServerMsg::Attached { channel: 5, seq: 0, mode: AttachMode::Resync })));
}

#[test]
fn a_replay_sends_attached_size_and_the_missing_bytes() {
    let (out, wm) = replay_replies(2, 10, b"xy".to_vec(), (80, 24));
    assert_eq!(wm, 10);
    assert_eq!(out.len(), 3);
    assert!(matches!(&out[0], Outgoing::Control(ServerMsg::Attached { channel: 2, seq: 10, mode: AttachMode::Replay })));
    assert!(matches!(&out[1], Outgoing::Control(ServerMsg::Resized { channel: 2, cols: 80, rows: 24 })));
    let (out, _) = replay_replies(2, 10, vec![], (80, 24));
    assert_eq!(out.len(), 2);
}

#[test]
fn the_handshake_wants_the_token_and_this_protocol() {
    let hello = |token: &str, proto: u32| Some(ClientMsg::Hello { token: token.into(), proto });
    assert_eq!(hello_verdict(hello("t0k", 1), "t0k"), Ok(1));
    assert_eq!(hello_verdict(hello("nope", 1), "t0k"), Err("bad hello".to_string()));
    assert_eq!(hello_verdict(hello("t0k", 2), "t0k"), Err("bad hello".to_string()));
    assert_eq!(hello_verdict(Some(ClientMsg::ListSessions), "t0k"), Err("bad hello".to_string()));
    assert_eq!(hello_verdict(None, "t0k"), Err("bad hello".to_string()));
    assert_eq!(input_error(3, &[3]), None);
    assert_eq!(input_error(4, &[3]).as_deref(), Some("no such channel"));
}

#[test]
fn a_run_of_steps_sends_the_stream_once_and_ends_on_exit() {
    let stream: Vec<u8> = (0u8..40).collect();
    let chunk = |a: usize, b: usize| PumpEvent::Data { end_seq: b as u64, bytes: stream[a..b].to_vec() };
    let mut wm: u64 = 5;
    let mut sent: Vec<u8> = Vec::new();
    let (f, after) = pump_step(&mut wm, chunk(0, 10), &[chunk(10, 20), PumpEvent::Idle]);
    assert_eq!(after, After::Continue);
    f.iter().for_each(|x| sent.extend_from_slice(x));
    let (f, after) = pump_step(&mut wm, chunk(20, 30), &[chunk(30, 40), PumpEvent::Exited]);
    f.iter().for_each(|x| sent.extend_from_slice(x));
    assert_eq!(after, After::Exited);
    assert_eq!(sent, stream[5..40].to_vec());
    assert_eq!(wm, 40);
    assert_eq!(octoterm::conn::after_message(3, 9, after), Some(ServerMsg::SessionExited { channel: 3, id: 9 }));
    assert!(octoterm::conn::pump_ends(after));
    assert_eq!(octoterm::conn::after_message(3, 9, After::Resized { cols: 80, rows: 24 }), Some(ServerMsg::Resized { channel: 3, cols: 80, rows: 24 }));
    assert_eq!(octoterm::conn::after_message(3, 9, After::Continue), None);
    assert!(!octoterm::conn::pump_ends(After::Resync));
}
