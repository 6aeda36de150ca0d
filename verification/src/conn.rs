//! Per-connection stream bookkeeping: what each control message leads to, what an
//! attachment sends when it starts, and how its output pump batches the stream.
use vstd::prelude::*;
use crate::protocol::frame::CONTROL_CHANNEL;
use crate::protocol::PROTO_VERSION;
use crate::text::str_eq;
use crate::protocol::messages::{AttachMode, ClientMsg, ServerMsg};
use crate::session::spawn::Snapshot;

verus! {

/// Trims a broadcast chunk that ends at sequence number `end_seq` against the
/// watermark (everything before it already reached the client through replay or
/// resync). Returns the part still to send, `None` when the whole chunk is already
/// covered, and moves the watermark to `end_seq`.
pub fn trim_by_watermark(watermark: &mut u64, end_seq: u64, bytes: &[u8]) -> (r: Option<Vec<u8>>)
    ensures
        ({
            let start: int = if end_seq >= bytes@.len() { end_seq - bytes@.len() } else { 0 };
            if end_seq <= *old(watermark) {
                &&& r is None
                &&& *final(watermark) == *old(watermark)
            } else {
                let skip: int = if *old(watermark) >= start { *old(watermark) - start } else { 0 };
                &&& r matches Some(v) && v@ == bytes@.subrange(skip, bytes@.len() as int)
                &&& *final(watermark) == end_seq
            }
        }),
{
    let len = bytes.len() as u64;
    let start = if end_seq >= len {
        end_seq - len
    } else {
        0
    };
    if end_seq <= *watermark {
        return None;
    }
    let skip = if *watermark >= start {
        (*watermark - start) as usize
    } else {
        0
    };
    *watermark = end_seq;
    let mut out: Vec<u8> = Vec::new();
    let mut i = skip;
    while i < bytes.len()
        invariant
            skip <= i <= bytes.len(),
            out@ == bytes@.subrange(skip as int, i as int),
        decreases bytes.len() - i,
    {
        out.push(bytes[i]);
        i = i + 1;
        assert(out@ =~= bytes@.subrange(skip as int, i as int));
    }
    Some(out)
}

} // verus!

verus! {

/// Data frames are coalesced up to this many bytes.
pub const COALESCE_MAX: usize = 65536;

/// What a session's output stream hands an attachment's pump.
pub enum PumpEvent {
    Data { end_seq: u64, bytes: Vec<u8> },
    /// The session's authoritative size changed.
    Resized { cols: u16, rows: u16 },
    Exited,
    /// This client fell behind and messages were dropped: the stream resumes after a
    /// gap.
    Lagged,
    /// Nothing more is waiting, or the stream closed.
    Idle,
}

/// What the pump does after sending a burst's frames.
#[derive(Debug, Clone, Copy, PartialEq, Eq, Structural)]
pub enum After {
    /// Wait for the next event.
    Continue,
    /// Tell the client the new size, then continue: the bytes before it render at the
    /// old size, those after at the new one.
    Resized { cols: u16, rows: u16 },
    /// Tell the client the session exited and stop.
    Exited,
    /// Discard the backlog and resync the screen (see [`after_lag`]).
    Resync,
    /// The stream closed: stop.
    Stop,
}

/// The part of a chunk still to send, per [`trim_by_watermark`].
pub open spec fn spec_trim(wm: u64, end_seq: u64, bytes: Seq<u8>) -> Option<Seq<u8>> {
    let start: int = if end_seq >= bytes.len() { end_seq - bytes.len() } else { 0 };
    if end_seq <= wm {
        None
    } else {
        let skip: int = if wm >= start { wm - start } else { 0 };
        Some(bytes.subrange(skip, bytes.len() as int))
    }
}

/// A burst after its first chunk: each further chunk is trimmed against the
/// watermark (chunks already delivered are skipped) and appended to the buffer; a
/// chunk that would take a non-empty buffer past [`COALESCE_MAX`] first sends the
/// buffer as a frame. The burst ends at the first event that is not data. Gives the
/// watermark, the frames sent, the buffer left and what follows.
pub open spec fn spec_burst(wm: u64, frames: Seq<Seq<u8>>, buf: Seq<u8>, rest: Seq<PumpEvent>) -> (u64, Seq<Seq<u8>>, Seq<u8>, After)
    decreases rest.len(),
{
    if rest.len() == 0 {
        (wm, frames, buf, After::Continue)
    } else {
        match rest[0] {
            PumpEvent::Data { end_seq, bytes } => match spec_trim(wm, end_seq, bytes@) {
                None => spec_burst(wm, frames, buf, rest.drop_first()),
                Some(t) => if buf.len() > 0 && buf.len() + t.len() > COALESCE_MAX {
                    spec_burst(end_seq, frames.push(buf), t, rest.drop_first())
                } else {
                    spec_burst(end_seq, frames, buf + t, rest.drop_first())
                },
            },
            PumpEvent::Resized { cols, rows } => (wm, frames, buf, After::Resized { cols, rows }),
            PumpEvent::Exited => (wm, frames, buf, After::Exited),
            PumpEvent::Lagged => (wm, frames, buf, After::Resync),
            PumpEvent::Idle => (wm, frames, buf, After::Continue),
        }
    }
}

/// The frames of a burst, the last buffer included when not empty.
pub open spec fn burst_frames(b: (u64, Seq<Seq<u8>>, Seq<u8>, After)) -> Seq<Seq<u8>> {
    if b.2.len() > 0 {
        b.1.push(b.2)
    } else {
        b.1
    }
}

/// One step of the pump for the event `event` received, with `backlog` the events
/// that were already waiting behind it (read without blocking, up to and including
/// the first that is not data). Gives the data frames to send and what follows them.
pub open spec fn spec_pump_step(wm: u64, event: PumpEvent, backlog: Seq<PumpEvent>) -> (u64, Seq<Seq<u8>>, After) {
    match event {
        PumpEvent::Data { end_seq, bytes } => {
            let (wm1, buf) = match spec_trim(wm, end_seq, bytes@) {
                Some(t) => (end_seq, t),
                None => (wm, Seq::empty()),
            };
            let b = spec_burst(wm1, Seq::empty(), buf, backlog);
            (b.0, burst_frames(b), b.3)
        },
        PumpEvent::Resized { cols, rows } => (wm, Seq::empty(), After::Resized { cols, rows }),
        PumpEvent::Exited => (wm, Seq::empty(), After::Exited),
        PumpEvent::Lagged => (wm, Seq::empty(), After::Resync),
        PumpEvent::Idle => (wm, Seq::empty(), After::Stop),
    }
}

pub open spec fn frame_views(v: Seq<Vec<u8>>) -> Seq<Seq<u8>> {
    v.map_values(|f: Vec<u8>| f@)
}

fn append_bytes(buf: &mut Vec<u8>, t: Vec<u8>)
    ensures
        final(buf)@ == old(buf)@ + t@,
{
    let mut i: usize = 0;
    let ghost b0 = buf@;
    while i < t.len()
        invariant
            i <= t.len(),
            buf@ == b0 + t@.subrange(0, i as int),
        decreases t.len() - i,
    {
        buf.push(t[i]);
        i = i + 1;
        assert(buf@ =~= b0 + t@.subrange(0, i as int));
    }
    assert(t@.subrange(0, t.len() as int) =~= t@);
}

/// One step of an attachment's output pump; see [`spec_pump_step`]. Moves the
/// watermark past everything the frames carry.
pub fn pump_step(watermark: &mut u64, event: PumpEvent, backlog: &[PumpEvent]) -> (r: (Vec<Vec<u8>>, After))
    ensures
        ({
            let s = spec_pump_step(*old(watermark), event, backlog@);
            &&& *final(watermark) == s.0
            &&& frame_views(r.0@) == s.1
            &&& r.1 == s.2
        }),
{
    let ghost ev = event;
    let ghost wm0 = *watermark;
    let (end_seq, bytes) = match event {
        PumpEvent::Data { end_seq, bytes } => (end_seq, bytes),
        PumpEvent::Resized { cols, rows } => {
            assert(frame_views(Seq::<Vec<u8>>::empty()) =~= Seq::empty());
            return (Vec::new(), After::Resized { cols, rows });
        },
        PumpEvent::Exited => {
            assert(frame_views(Seq::<Vec<u8>>::empty()) =~= Seq::empty());
            return (Vec::new(), After::Exited);
        },
        PumpEvent::Lagged => {
            assert(frame_views(Seq::<Vec<u8>>::empty()) =~= Seq::empty());
            return (Vec::new(), After::Resync);
        },
        PumpEvent::Idle => {
            assert(frame_views(Seq::<Vec<u8>>::empty()) =~= Seq::empty());
            return (Vec::new(), After::Stop);
        },
    };
    let mut buf: Vec<u8> = match trim_by_watermark(watermark, end_seq, bytes.as_slice()) {
        Some(t) => t,
        None => Vec::new(),
    };
    let mut frames: Vec<Vec<u8>> = Vec::new();
    let ghost target = spec_burst(*watermark, Seq::empty(), buf@, backlog@);
    assert(spec_trim(wm0, end_seq, bytes@) is None ==> buf@ =~= Seq::<u8>::empty());
    assert(spec_pump_step(wm0, ev, backlog@) == (target.0, burst_frames(target), target.3));
    assert(frame_views(frames@) =~= Seq::empty());
    assert(backlog@.subrange(0, backlog@.len() as int) =~= backlog@);
    let mut i: usize = 0;
    let mut after = After::Continue;
    let mut done = false;
    while i < backlog.len() && !done
        invariant
            i <= backlog.len(),
            done ==> target == (*watermark, frame_views(frames@), buf@, after),
            !done ==> after == After::Continue,
            !done ==> target == spec_burst(*watermark, frame_views(frames@), buf@, backlog@.subrange(i as int, backlog@.len() as int)),
        decreases backlog.len() - i + if done { 0int } else { 1int },
    {
        let ghost rest = backlog@.subrange(i as int, backlog@.len() as int);
        assert(rest[0] == backlog@[i as int]);
        assert(rest.drop_first() =~= backlog@.subrange(i + 1, backlog@.len() as int));
        match &backlog[i] {
            PumpEvent::Data { end_seq, bytes } => {
                match trim_by_watermark(watermark, *end_seq, bytes.as_slice()) {
                    None => {},
                    Some(t) => {
                        if buf.len() > 0 && (buf.len() > COALESCE_MAX || t.len() > COALESCE_MAX - buf.len()) {
                            let mut full = t;
                            std::mem::swap(&mut full, &mut buf);
                            let ghost f0 = frames@;
                            frames.push(full);
                            assert(frame_views(frames@) =~= frame_views(f0).push(full@));
                        } else {
                            append_bytes(&mut buf, t);
                        }
                    },
                }
                i = i + 1;
            },
            PumpEvent::Resized { cols, rows } => {
                after = After::Resized { cols: *cols, rows: *rows };
                done = true;
            },
            PumpEvent::Exited => {
                after = After::Exited;
                done = true;
            },
            PumpEvent::Lagged => {
                after = After::Resync;
                done = true;
            },
            PumpEvent::Idle => {
                after = After::Continue;
                done = true;
            },
        }
    }
    if !done {
        assert(backlog@.subrange(i as int, backlog@.len() as int) =~= Seq::<PumpEvent>::empty());
    }
    assert(target == (*watermark, frame_views(frames@), buf@, after));
    if buf.len() > 0 {
        let ghost f0 = frames@;
        frames.push(buf);
        assert(frame_views(frames@) =~= frame_views(f0).push(target.2));
    }
    (frames, after)
}

/// After falling behind, the backlog is discarded up to the first idle read; an exit
/// met on the way ends the pump, otherwise the screen is resynced.
pub open spec fn spec_after_lag(drained: Seq<PumpEvent>) -> After
    decreases drained.len(),
{
    if drained.len() == 0 {
        After::Resync
    } else {
        match drained[0] {
            PumpEvent::Exited => After::Exited,
            PumpEvent::Idle => After::Resync,
            _ => spec_after_lag(drained.drop_first()),
        }
    }
}

pub fn after_lag(drained: &[PumpEvent]) -> (r: After)
    ensures
        r == spec_after_lag(drained@),
{
    let mut i: usize = 0;
    assert(drained@.subrange(0, drained@.len() as int) =~= drained@);
    while i < drained.len()
        invariant
            i <= drained.len(),
            spec_after_lag(drained@) == spec_after_lag(drained@.subrange(i as int, drained@.len() as int)),
        decreases drained.len() - i,
    {
        let ghost rest = drained@.subrange(i as int, drained@.len() as int);
        assert(rest[0] == drained@[i as int]);
        assert(rest.drop_first() =~= drained@.subrange(i + 1, drained@.len() as int));
        match &drained[i] {
            PumpEvent::Exited => return After::Exited,
            PumpEvent::Idle => return After::Resync,
            _ => {},
        }
        i = i + 1;
    }
    assert(drained@.subrange(i as int, drained@.len() as int) =~= Seq::<PumpEvent>::empty());
    After::Resync
}

/// What the connection does for a control message. The checks that need no session
/// are made here; the rest names the work the session manager is asked for.
pub enum ControlAction {
    /// Answer with an error, tied to a channel when it concerns one.
    Fail { message: String, channel: Option<u32> },
    ListSessions,
    NewSession { name: Option<String>, command: Option<Vec<String>>, cwd: Option<String> },
    KillSession { id: u64 },
    RenameSession { id: u64, name: String },
    Preview { id: u64 },
    Attach { id: u64, channel: u32, last_seq: Option<u64>, cols: u16, rows: u16 },
    Detach { channel: u32 },
    Resize { channel: u32, cols: u16, rows: u16 },
}

fn is_attached(attached: &[u32], channel: u32) -> (r: bool)
    ensures
        r == attached@.contains(channel),
{
    let mut i: usize = 0;
    while i < attached.len()
        invariant
            i <= attached.len(),
            forall|k: int| 0 <= k < i ==> attached@[k] != channel,
        decreases attached.len() - i,
    {
        if attached[i] == channel {
            return true;
        }
        i = i + 1;
    }
    false
}

/// Decides a control message against the channels attached on this connection
/// (`attached`): a second `hello` is an error; attaching the control channel or a
/// channel in use is refused; detaching or resizing a channel that is not attached is
/// an error; everything else is passed on.
pub fn control_action(msg: ClientMsg, attached: &[u32]) -> (r: ControlAction)
    ensures
        match msg {
            ClientMsg::Hello { .. } => r matches ControlAction::Fail { message, channel } && message@ == "already authenticated"@ && channel is None,
            ClientMsg::ListSessions => r is ListSessions,
            ClientMsg::NewSession { name, command, cwd } => r matches ControlAction::NewSession { name: n, command: c, cwd: w } && n == name && c == command && w == cwd,
            ClientMsg::KillSession { id } => r matches ControlAction::KillSession { id: i } && i == id,
            ClientMsg::RenameSession { id, name } => r matches ControlAction::RenameSession { id: i, name: n } && i == id && n == name,
            ClientMsg::Preview { id } => r matches ControlAction::Preview { id: i } && i == id,
            ClientMsg::Attach { id, channel, last_seq, cols, rows } => if channel == CONTROL_CHANNEL || attached@.contains(channel) {
                r matches ControlAction::Fail { message, channel: c } && message@ == "channel unavailable"@ && c == Some(channel)
            } else {
                r matches ControlAction::Attach { id: i, channel: c, last_seq: l, cols: w, rows: h } && i == id && c == channel && l == last_seq && w == cols && h == rows
            },
            ClientMsg::Detach { channel } => if attached@.contains(channel) {
                r matches ControlAction::Detach { channel: c } && c == channel
            } else {
                r matches ControlAction::Fail { message, channel: c } && message@ == "no such channel"@ && c == Some(channel)
            },
            ClientMsg::Resize { channel, cols, rows } => if attached@.contains(channel) {
                r matches ControlAction::Resize { channel: c, cols: w, rows: h } && c == channel && w == cols && h == rows
            } else {
                r matches ControlAction::Fail { message, channel: c } && message@ == "no such channel"@ && c == Some(channel)
            },
        },
{
    match msg {
        ClientMsg::Hello { .. } => ControlAction::Fail { message: String::from_str("already authenticated"), channel: None },
        ClientMsg::ListSessions => ControlAction::ListSessions,
        ClientMsg::NewSession { name, command, cwd } => ControlAction::NewSession { name, command, cwd },
        ClientMsg::KillSession { id } => ControlAction::KillSession { id },
        ClientMsg::RenameSession { id, name } => ControlAction::RenameSession { id, name },
        ClientMsg::Preview { id } => ControlAction::Preview { id },
        ClientMsg::Attach { id, channel, last_seq, cols, rows } => {
            if channel == CONTROL_CHANNEL || is_attached(attached, channel) {
                ControlAction::Fail { message: String::from_str("channel unavailable"), channel: Some(channel) }
            } else {
                ControlAction::Attach { id, channel, last_seq, cols, rows }
            }
        },
        ClientMsg::Detach { channel } => {
            if is_attached(attached, channel) {
                ControlAction::Detach { channel }
            } else {
                ControlAction::Fail { message: String::from_str("no such channel"), channel: Some(channel) }
            }
        },
        ClientMsg::Resize { channel, cols, rows } => {
            if is_attached(attached, channel) {
                ControlAction::Resize { channel, cols, rows }
            } else {
                ControlAction::Fail { message: String::from_str("no such channel"), channel: Some(channel) }
            }
        },
    }
}

/// A message to send: a control message, or terminal bytes on a channel.
pub enum Outgoing {
    Control(ServerMsg),
    Data { channel: u32, bytes: Vec<u8> },
}

/// A full resync of `channel` from a snapshot: the size first (the repaint is drawn
/// at it), then the repaint between `ResyncBegin` and `ResyncEnd`, whose `seq` is the
/// snapshot's position. The watermark moves to that position.
pub fn resync_replies(channel: u32, snap: Snapshot) -> (r: (Vec<Outgoing>, u64))
    ensures
        r.1 == snap.end_seq,
        r.0@.len() == 4,
        r.0@[0] matches Outgoing::Control(ServerMsg::Resized { channel: c, cols, rows }) && c == channel && cols == snap.cols && rows == snap.rows,
        r.0@[1] matches Outgoing::Control(ServerMsg::ResyncBegin { channel: c }) && c == channel,
        r.0@[2] matches Outgoing::Data { channel: c, bytes } && c == channel && bytes@ == snap.repaint@,
        r.0@[3] matches Outgoing::Control(ServerMsg::ResyncEnd { channel: c, seq }) && c == channel && seq == snap.end_seq,
{
    let end_seq = snap.end_seq;
    let mut out: Vec<Outgoing> = Vec::new();
    out.push(Outgoing::Control(ServerMsg::Resized { channel, cols: snap.cols, rows: snap.rows }));
    out.push(Outgoing::Control(ServerMsg::ResyncBegin { channel }));
    out.push(Outgoing::Data { channel, bytes: snap.repaint });
    out.push(Outgoing::Control(ServerMsg::ResyncEnd { channel, seq: end_seq }));
    (out, end_seq)
}

/// What attaching sends when the stream can be replayed from the client's position
/// up to `end_seq`: `Attached` in replay mode, the session's size, then the missing
/// bytes (when there are any). The watermark moves to `end_seq`.
pub fn replay_replies(channel: u32, end_seq: u64, bytes: Vec<u8>, size: (u16, u16)) -> (r: (Vec<Outgoing>, u64))
    ensures
        r.1 == end_seq,
        r.0@.len() == if bytes@.len() > 0 { 3int } else { 2int },
        r.0@[0] matches Outgoing::Control(ServerMsg::Attached { channel: c, seq, mode }) && c == channel && seq == end_seq && mode == AttachMode::Replay,
        r.0@[1] matches Outgoing::Control(ServerMsg::Resized { channel: c, cols, rows }) && c == channel && cols == size.0 && rows == size.1,
        bytes@.len() > 0 ==> (r.0@[2] matches Outgoing::Data { channel: c, bytes: b } && c == channel && b@ == bytes@),
{
    let mut out: Vec<Outgoing> = Vec::new();
    out.push(Outgoing::Control(ServerMsg::Attached { channel, seq: end_seq, mode: AttachMode::Replay }));
    out.push(Outgoing::Control(ServerMsg::Resized { channel, cols: size.0, rows: size.1 }));
    if bytes.len() > 0 {
        out.push(Outgoing::Data { channel, bytes });
    }
    (out, end_seq)
}

/// What attaching sends when the client's position cannot be replayed: `Attached` in
/// resync mode (its `seq` is 0; the anchor comes with `ResyncEnd`), then a resync.
pub fn resync_attach_replies(channel: u32, snap: Snapshot) -> (r: (Vec<Outgoing>, u64))
    ensures
        r.1 == snap.end_seq,
        r.0@.len() == 5,
        r.0@[0] matches Outgoing::Control(ServerMsg::Attached { channel: c, seq, mode }) && c == channel && seq == 0 && mode == AttachMode::Resync,
        r.0@[1] matches Outgoing::Control(ServerMsg::Resized { channel: c, cols, rows }) && c == channel && cols == snap.cols && rows == snap.rows,
        r.0@[2] matches Outgoing::Control(ServerMsg::ResyncBegin { channel: c }) && c == channel,
        r.0@[3] matches Outgoing::Data { channel: c, bytes } && c == channel && bytes@ == snap.repaint@,
        r.0@[4] matches Outgoing::Control(ServerMsg::ResyncEnd { channel: c, seq }) && c == channel && seq == snap.end_seq,
{
    let (rest, wm) = resync_replies(channel, snap);
    let mut out: Vec<Outgoing> = Vec::new();
    out.push(Outgoing::Control(ServerMsg::Attached { channel, seq: 0, mode: AttachMode::Resync }));
    let mut rest = rest;
    out.append(&mut rest);
    (out, wm)
}

/// The frames' bytes, one after another.
pub open spec fn flatten(fs: Seq<Seq<u8>>) -> Seq<u8>
    decreases fs.len(),
{
    if fs.len() == 0 {
        Seq::empty()
    } else {
        flatten(fs.drop_last()) + fs.last()
    }
}

/// The bytes of a burst's data events that the client has not received yet, in
/// order, up to the first event that is not data.
pub open spec fn pending_bytes(wm: u64, rest: Seq<PumpEvent>) -> Seq<u8>
    decreases rest.len(),
{
    if rest.len() == 0 {
        Seq::empty()
    } else {
        match rest[0] {
            PumpEvent::Data { end_seq, bytes } => match spec_trim(wm, end_seq, bytes@) {
                None => pending_bytes(wm, rest.drop_first()),
                Some(t) => t + pending_bytes(end_seq, rest.drop_first()),
            },
            _ => Seq::empty(),
        }
    }
}

proof fn lemma_burst_bytes(wm: u64, frames: Seq<Seq<u8>>, buf: Seq<u8>, rest: Seq<PumpEvent>)
    ensures
        ({
            let b = spec_burst(wm, frames, buf, rest);
            &&& flatten(b.1) + b.2 == flatten(frames) + buf + pending_bytes(wm, rest)
            &&& b.0 >= wm
            &&& (forall|i: int| 0 <= i < frames.len() ==> (#[trigger] frames[i]).len() > 0) ==> (forall|i: int| 0 <= i < b.1.len() ==> (#[trigger] b.1[i]).len() > 0)
        }),
    decreases rest.len(),
{
    if rest.len() > 0 {
        match rest[0] {
            PumpEvent::Data { end_seq, bytes } => match spec_trim(wm, end_seq, bytes@) {
                None => {
                    lemma_burst_bytes(wm, frames, buf, rest.drop_first());
                },
                Some(t) => {
                    if buf.len() > 0 && buf.len() + t.len() > COALESCE_MAX {
                        lemma_burst_bytes(end_seq, frames.push(buf), t, rest.drop_first());
                        assert(frames.push(buf).drop_last() =~= frames);
                        assert(flatten(frames.push(buf)) == flatten(frames) + buf);
                        assert(flatten(frames) + buf + t + pending_bytes(end_seq, rest.drop_first())
                            =~= flatten(frames) + buf + (t + pending_bytes(end_seq, rest.drop_first())));
                        assert(forall|i: int| 0 <= i < frames.len() ==> (#[trigger] frames[i]).len() > 0 ==> frames.push(buf)[i] == frames[i]);
                    } else {
                        lemma_burst_bytes(end_seq, frames, buf + t, rest.drop_first());
                        assert(flatten(frames) + (buf + t) + pending_bytes(end_seq, rest.drop_first())
                            =~= flatten(frames) + buf + (t + pending_bytes(end_seq, rest.drop_first())));
                    }
                },
            },
            _ => {
                assert(flatten(frames) + buf + Seq::<u8>::empty() =~= flatten(frames) + buf);
            },
        }
    } else {
        assert(flatten(frames) + buf + Seq::<u8>::empty() =~= flatten(frames) + buf);
    }
}

/// Nothing is lost, repeated or reordered by coalescing: the frames of a pump step
/// carry exactly the bytes of its data events that the client has not received,
/// in order; no frame is empty; and the watermark never moves back.
pub proof fn pump_sends_each_new_byte_once(wm: u64, event: PumpEvent, backlog: Seq<PumpEvent>)
    ensures
        ({
            let s = spec_pump_step(wm, event, backlog);
            &&& flatten(s.1) == pending_bytes(wm, seq![event] + backlog)
            &&& forall|i: int| 0 <= i < s.1.len() ==> (#[trigger] s.1[i]).len() > 0
            &&& s.0 >= wm
        }),
{
    let all = seq![event] + backlog;
    assert(all[0] == event);
    assert(all.drop_first() =~= backlog);
    match event {
        PumpEvent::Data { end_seq, bytes } => {
            let (wm1, buf) = match spec_trim(wm, end_seq, bytes@) {
                Some(t) => (end_seq, t),
                None => (wm, Seq::<u8>::empty()),
            };
            lemma_burst_bytes(wm1, Seq::empty(), buf, backlog);
            let b = spec_burst(wm1, Seq::empty(), buf, backlog);
            assert(flatten(Seq::<Seq<u8>>::empty()) == Seq::<u8>::empty());
            if b.2.len() > 0 {
                assert(b.1.push(b.2).drop_last() =~= b.1);
                assert(forall|i: int| 0 <= i < b.1.len() ==> b.1.push(b.2)[i] == b.1[i]);
            } else {
                assert(b.2 =~= Seq::<u8>::empty());
                assert(flatten(b.1) + b.2 =~= flatten(b.1));
            }
            assert(Seq::<u8>::empty() + buf + pending_bytes(wm1, backlog) =~= buf + pending_bytes(wm1, backlog));
            if spec_trim(wm, end_seq, bytes@) is Some {
                assert(end_seq > wm);
            }
        },
        _ => {
            assert(flatten(Seq::<Seq<u8>>::empty()) == Seq::<u8>::empty());
        },
    }
}

/// The watermark after the data events of `rest` (up to the first event that is
/// not data), starting from `wm`.
pub open spec fn wm_after(wm: u64, rest: Seq<PumpEvent>) -> u64
    decreases rest.len(),
{
    if rest.len() == 0 {
        wm
    } else {
        match rest[0] {
            PumpEvent::Data { end_seq, bytes } => match spec_trim(wm, end_seq, bytes@) {
                None => wm_after(wm, rest.drop_first()),
                Some(_) => wm_after(end_seq, rest.drop_first()),
            },
            _ => wm,
        }
    }
}

/// Every event is data.
pub open spec fn all_data(evs: Seq<PumpEvent>) -> bool {
    forall|i: int| 0 <= i < evs.len() ==> #[trigger] evs[i] is Data
}

/// The events a run of pump steps received, in order: each step's event, then its
/// backlog.
pub open spec fn run_events(steps: Seq<(PumpEvent, Seq<PumpEvent>)>) -> Seq<PumpEvent>
    decreases steps.len(),
{
    if steps.len() == 0 {
        Seq::empty()
    } else {
        run_events(steps.drop_last()) + (seq![steps.last().0] + steps.last().1)
    }
}

/// A run of pump steps from the watermark `wm`: the watermark at its end and every
/// frame it sent, in order.
pub open spec fn run_frames(wm: u64, steps: Seq<(PumpEvent, Seq<PumpEvent>)>) -> (u64, Seq<Seq<u8>>)
    decreases steps.len(),
{
    if steps.len() == 0 {
        (wm, Seq::empty())
    } else {
        let before = run_frames(wm, steps.drop_last());
        let st = spec_pump_step(before.0, steps.last().0, steps.last().1);
        (st.0, before.1 + st.1)
    }
}

/// Data chunks cut one after the other out of the stream `s` (indexed by sequence
/// number), the first starting at `start`.
pub open spec fn contiguous(evs: Seq<PumpEvent>, s: Seq<u8>, start: int) -> bool
    decreases evs.len(),
{
    evs.len() == 0 || match evs[0] {
        PumpEvent::Data { end_seq, bytes } => start <= end_seq <= s.len() && bytes@ == s.subrange(start, end_seq as int)
            && contiguous(evs.drop_first(), s, end_seq as int),
        _ => false,
    }
}

/// Where the last of the chunks ends.
pub open spec fn last_end(evs: Seq<PumpEvent>, start: int) -> int
    decreases evs.len(),
{
    if evs.len() == 0 {
        start
    } else {
        match evs[0] {
            PumpEvent::Data { end_seq, .. } => last_end(evs.drop_first(), end_seq as int),
            _ => start,
        }
    }
}

proof fn lemma_burst_wm(wm: u64, frames: Seq<Seq<u8>>, buf: Seq<u8>, rest: Seq<PumpEvent>)
    ensures
        spec_burst(wm, frames, buf, rest).0 == wm_after(wm, rest),
    decreases rest.len(),
{
    if rest.len() > 0 {
        match rest[0] {
            PumpEvent::Data { end_seq, bytes } => match spec_trim(wm, end_seq, bytes@) {
                None => lemma_burst_wm(wm, frames, buf, rest.drop_first()),
                Some(t) => {
                    lemma_burst_wm(end_seq, frames.push(buf), t, rest.drop_first());
                    lemma_burst_wm(end_seq, frames, buf + t, rest.drop_first());
                },
            },
            _ => {},
        }
    }
}

proof fn lemma_step_wm(wm: u64, event: PumpEvent, backlog: Seq<PumpEvent>)
    ensures
        spec_pump_step(wm, event, backlog).0 == wm_after(wm, seq![event] + backlog),
{
    let all = seq![event] + backlog;
    assert(all[0] == event);
    assert(all.drop_first() =~= backlog);
    match event {
        PumpEvent::Data { end_seq, bytes } => {
            let wm1 = match spec_trim(wm, end_seq, bytes@) {
                Some(t) => end_seq,
                None => wm,
            };
            let buf = match spec_trim(wm, end_seq, bytes@) {
                Some(t) => t,
                None => Seq::<u8>::empty(),
            };
            lemma_burst_wm(wm1, Seq::empty(), buf, backlog);
        },
        _ => {},
    }
}

proof fn lemma_pending_concat(wm: u64, xs: Seq<PumpEvent>, ys: Seq<PumpEvent>)
    requires
        all_data(xs),
    ensures
        pending_bytes(wm, xs + ys) == pending_bytes(wm, xs) + pending_bytes(wm_after(wm, xs), ys),
        wm_after(wm, xs + ys) == wm_after(wm_after(wm, xs), ys),
    decreases xs.len(),
{
    if xs.len() == 0 {
        assert(xs + ys =~= ys);
        assert(Seq::<u8>::empty() + pending_bytes(wm, ys) =~= pending_bytes(wm, ys));
    } else {
        let zs = xs + ys;
        assert(zs[0] == xs[0]);
        assert(zs.drop_first() =~= xs.drop_first() + ys);
        assert(xs[0] is Data);
        assert(all_data(xs.drop_first())) by {
            assert forall|i: int| 0 <= i < xs.drop_first().len() implies #[trigger] xs.drop_first()[i] is Data by {
                assert(xs.drop_first()[i] == xs[i + 1]);
            }
        }
        match xs[0] {
            PumpEvent::Data { end_seq, bytes } => match spec_trim(wm, end_seq, bytes@) {
                None => lemma_pending_concat(wm, xs.drop_first(), ys),
                Some(t) => {
                    lemma_pending_concat(end_seq, xs.drop_first(), ys);
                    assert(t + (pending_bytes(end_seq, xs.drop_first()) + pending_bytes(wm_after(end_seq, xs.drop_first()), ys))
                        =~= (t + pending_bytes(end_seq, xs.drop_first())) + pending_bytes(wm_after(end_seq, xs.drop_first()), ys));
                },
            },
            _ => {},
        }
    }
}

proof fn lemma_flatten_concat(a: Seq<Seq<u8>>, b: Seq<Seq<u8>>)
    ensures
        flatten(a + b) == flatten(a) + flatten(b),
    decreases b.len(),
{
    if b.len() == 0 {
        assert(a + b =~= a);
        assert(flatten(a) + Seq::<u8>::empty() =~= flatten(a));
    } else {
        lemma_flatten_concat(a, b.drop_last());
        assert((a + b).drop_last() =~= a + b.drop_last());
        assert((a + b).last() == b.last());
        assert(flatten(a) + flatten(b.drop_last()) + b.last() =~= flatten(a) + (flatten(b.drop_last()) + b.last()));
    }
}

proof fn lemma_all_data_split(xs: Seq<PumpEvent>, ys: Seq<PumpEvent>)
    requires
        all_data(xs + ys),
    ensures
        all_data(xs),
        all_data(ys),
{
    assert forall|i: int| 0 <= i < xs.len() implies #[trigger] xs[i] is Data by {
        assert((xs + ys)[i] == xs[i]);
    }
    assert forall|i: int| 0 <= i < ys.len() implies #[trigger] ys[i] is Data by {
        assert((xs + ys)[xs.len() + i] == ys[i]);
    }
}

/// Over a whole run of pump steps that receives only data, the frames sent carry
/// exactly the bytes of all the events received that the client did not have, each
/// once and in order; no frame is empty; the watermark ends past all of them.
pub proof fn a_pump_run_sends_each_new_byte_once(wm: u64, steps: Seq<(PumpEvent, Seq<PumpEvent>)>)
    requires
        all_data(run_events(steps)),
    ensures
        flatten(run_frames(wm, steps).1) == pending_bytes(wm, run_events(steps)),
        run_frames(wm, steps).0 == wm_after(wm, run_events(steps)),
        forall|i: int| 0 <= i < run_frames(wm, steps).1.len() ==> (#[trigger] run_frames(wm, steps).1[i]).len() > 0,
    decreases steps.len(),
{
    if steps.len() == 0 {
        assert(flatten(Seq::<Seq<u8>>::empty()) == Seq::<u8>::empty());
    } else {
        let pre = steps.drop_last();
        let (e, bl) = steps.last();
        let xs = run_events(pre);
        let ys = seq![e] + bl;
        lemma_all_data_split(xs, ys);
        a_pump_run_sends_each_new_byte_once(wm, pre);
        let before = run_frames(wm, pre);
        pump_sends_each_new_byte_once(before.0, e, bl);
        lemma_step_wm(before.0, e, bl);
        let st = spec_pump_step(before.0, e, bl);
        lemma_flatten_concat(before.1, st.1);
        lemma_pending_concat(wm, xs, ys);
        assert forall|i: int| 0 <= i < (before.1 + st.1).len() implies (#[trigger] (before.1 + st.1)[i]).len() > 0 by {
            if i < before.1.len() {
                assert((before.1 + st.1)[i] == before.1[i]);
            } else {
                assert((before.1 + st.1)[i] == st.1[i - before.1.len()]);
            }
        }
    }
}

/// What the not-yet-received bytes of contiguous chunks are: the stream from the
/// later of the watermark and the first chunk's start, to the last chunk's end.
pub proof fn lemma_contiguous_pending(wm: u64, evs: Seq<PumpEvent>, s: Seq<u8>, start: int)
    requires
        contiguous(evs, s, start),
        0 <= start <= s.len(),
    ensures
        all_data(evs),
        start <= last_end(evs, start) <= (if evs.len() == 0 { start } else { s.len() as int }),
        pending_bytes(wm, evs) == s.subrange(
            if wm >= last_end(evs, start) { last_end(evs, start) } else if wm >= start { wm as int } else { start },
            last_end(evs, start),
        ),
    decreases evs.len(),
{
    if evs.len() == 0 {
        assert(s.subrange(start, start) =~= Seq::<u8>::empty());
    } else {
        match evs[0] {
            PumpEvent::Data { end_seq, bytes } => {
                let r = evs.drop_first();
                lemma_contiguous_pending(wm, r, s, end_seq as int);
                lemma_contiguous_pending(end_seq, r, s, end_seq as int);
                assert forall|i: int| 0 <= i < evs.len() implies #[trigger] evs[i] is Data by {
                    if i > 0 {
                        assert(evs[i] == r[i - 1]);
                    }
                }
                let e = last_end(evs, start);
                assert(e == last_end(r, end_seq as int));
                assert(bytes@.len() == end_seq - start);
                if end_seq <= wm {
                    assert(spec_trim(wm, end_seq, bytes@) is None);
                } else {
                    let st: int = start;
                    let skip: int = if wm >= st { wm - st } else { 0 };
                    assert(spec_trim(wm, end_seq, bytes@) == Some(bytes@.subrange(skip, bytes@.len() as int)));
                    let lo: int = if wm >= st { wm as int } else { st };
                    assert(bytes@.subrange(skip, bytes@.len() as int) =~= s.subrange(lo, end_seq as int));
                    assert(s.subrange(lo, end_seq as int) + s.subrange(end_seq as int, e) =~= s.subrange(lo, e));
                }
            },
            _ => {},
        }
    }
}

/// A whole run over a stream received as contiguous chunks: the frames carry the
/// stream from where the client stood (or from the first chunk, if later) to the
/// end of the last chunk, with no byte sent twice or lost.
pub proof fn a_pump_run_sends_the_stream_once(wm: u64, steps: Seq<(PumpEvent, Seq<PumpEvent>)>, s: Seq<u8>, start: int)
    requires
        contiguous(run_events(steps), s, start),
        0 <= start <= s.len(),
    ensures
        ({
            let e = last_end(run_events(steps), start);
            flatten(run_frames(wm, steps).1) == s.subrange(
                if wm >= e { e } else if wm >= start { wm as int } else { start },
                e,
            )
        }),
{
    lemma_contiguous_pending(wm, run_events(steps), s, start);
    a_pump_run_sends_each_new_byte_once(wm, steps);
}

/// The control message the pump sends after a step's frames: the new size, or the
/// session's exit; nothing otherwise.
pub fn after_message(channel: u32, session_id: u64, after: After) -> (r: Option<ServerMsg>)
    ensures
        match after {
            After::Resized { cols, rows } => r matches Some(ServerMsg::Resized { channel: c, cols: w, rows: h })
                && c == channel && w == cols && h == rows,
            After::Exited => r matches Some(ServerMsg::SessionExited { channel: c, id }) && c == channel && id == session_id,
            _ => r is None,
        },
{
    match after {
        After::Resized { cols, rows } => Some(ServerMsg::Resized { channel, cols, rows }),
        After::Exited => Some(ServerMsg::SessionExited { channel, id: session_id }),
        _ => None,
    }
}

/// Whether the pump stops after a step: the session exited, or the stream closed.
pub fn pump_ends(after: After) -> (r: bool)
    ensures
        r == (after is Exited || after is Stop),
{
    match after {
        After::Exited => true,
        After::Stop => true,
        _ => false,
    }
}

proof fn lemma_burst_exit(wm: u64, frames: Seq<Seq<u8>>, buf: Seq<u8>, rest: Seq<PumpEvent>, k: int)
    requires
        0 <= k < rest.len(),
        all_data(rest.subrange(0, k)),
        rest[k] is Exited,
    ensures
        spec_burst(wm, frames, buf, rest).3 == After::Exited,
    decreases k,
{
    if k > 0 {
        assert(rest.subrange(0, k)[0] == rest[0]);
        assert(rest[0] is Data);
        let r = rest.drop_first();
        assert(all_data(r.subrange(0, k - 1))) by {
            assert forall|i: int| 0 <= i < k - 1 implies #[trigger] r.subrange(0, k - 1)[i] is Data by {
                assert(r.subrange(0, k - 1)[i] == rest.subrange(0, k)[i + 1]);
            }
        }
        match rest[0] {
            PumpEvent::Data { end_seq, bytes } => match spec_trim(wm, end_seq, bytes@) {
                None => lemma_burst_exit(wm, frames, buf, r, k - 1),
                Some(t) => {
                    lemma_burst_exit(end_seq, frames.push(buf), t, r, k - 1);
                    lemma_burst_exit(end_seq, frames, buf + t, r, k - 1);
                },
            },
            _ => {},
        }
    }
}

/// An exit ends the pump with the session's exit: whether the exit is the event
/// received or waits behind data in the backlog, the step's frames (the data before
/// it) are followed by `SessionExited` for this channel and session, and the pump
/// stops.
pub proof fn an_exit_ends_the_pump(wm: u64, event: PumpEvent, backlog: Seq<PumpEvent>, k: int)
    requires
        event is Exited || (event is Data && 0 <= k < backlog.len() && all_data(backlog.subrange(0, k)) && backlog[k] is Exited),
    ensures
        spec_pump_step(wm, event, backlog).2 == After::Exited,
{
    match event {
        PumpEvent::Data { end_seq, bytes } => {
            let wm1 = match spec_trim(wm, end_seq, bytes@) {
                Some(t) => end_seq,
                None => wm,
            };
            let buf = match spec_trim(wm, end_seq, bytes@) {
                Some(t) => t,
                None => Seq::<u8>::empty(),
            };
            lemma_burst_exit(wm1, Seq::empty(), buf, backlog, k);
        },
        _ => {},
    }
}

/// The WebSocket handshake: the first control message must be a `hello` with the
/// server's token and this protocol version. Gives the version to answer `HelloOk`
/// with, or the reason the connection is refused (`None`: no control message could
/// be read).
pub fn hello_verdict(hello: Option<ClientMsg>, token: &str) -> (r: Result<u32, String>)
    ensures
        match hello {
            Some(ClientMsg::Hello { token: t, proto }) => if t@ == token@ && proto == PROTO_VERSION {
                r == Ok::<u32, String>(PROTO_VERSION)
            } else {
                r matches Err(m) && m@ == "bad hello"@
            },
            _ => r matches Err(m) && m@ == "bad hello"@,
        },
{
    match hello {
        Some(ClientMsg::Hello { token: t, proto }) => {
            if str_eq(t.as_str(), token) && proto == PROTO_VERSION {
                Ok(PROTO_VERSION)
            } else {
                Err(String::from_str("bad hello"))
            }
        },
        _ => Err(String::from_str("bad hello")),
    }
}

/// Terminal input for a channel that is not attached on this connection is answered
/// with this error (tied to the channel); input for an attached one is delivered.
pub fn input_error(channel: u32, attached: &[u32]) -> (r: Option<String>)
    ensures
        match r {
            None => attached@.contains(channel),
            Some(m) => !attached@.contains(channel) && m@ == "no such channel"@,
        },
{
    if is_attached(attached, channel) {
        None
    } else {
        Some(String::from_str("no such channel"))
    }
}

} // verus!
