//! The session state machine and pacing controller: per-session identity,
//! the chunks-generated counter, and the paced generation of one request's
//! chunks, one chunk in memory at a time.

use vstd::prelude::*;
use crate::CHUNK_SIZE;
use crate::STREAM_CHUNK_CEILING;
use crate::PROGRESS_INTERVAL;
use crate::base64::spec_base64;
use crate::base64::base64_encode;
use crate::entropy::random_bytes;
use crate::messages::ClientMessage;
use crate::messages::ServerMessage;
use crate::messages::render_server_message;
use crate::messages::render_connected;
use crate::messages::render_key_chunk;
use crate::messages::render_progress;
use crate::messages::render_session_complete;
use crate::messages::render_error;
use crate::messages::spec_parse_client_message;
use crate::messages::spec_parse_stateless_request;
use crate::messages::parse_client_message;
use crate::messages::parse_stateless_request;

verus! {

/// One outbound frame of the duplex transport.
pub enum Frame {
    Text(String),
    Binary(Vec<u8>),
}

/// How chunk payloads leave the session: base64 inside `key_chunk` JSON
/// text frames (session-scoped streaming), or raw binary frames with
/// progress and completion as JSON text (stateless streaming).
#[derive(Clone, Copy, PartialEq, Eq, Structural, Debug)]
pub enum DeliveryMode {
    Text,
    Binary,
}

/// Lifecycle of one session.
#[derive(Clone, Copy, PartialEq, Eq, Structural, Debug)]
pub enum Phase {
    /// No request in flight.
    Idle,
    /// One `request_key` transaction in flight: the next chunk index and
    /// the clamped total of the transaction.
    Generating { next_index: usize, total: usize },
    /// Terminal: no transition leaves this phase.
    Closed,
}

/// The durable per-session attachment: everything that must survive
/// suspension of the underlying connection.  No key bytes, only
/// identity and counters.
pub struct SessionState {
    pub session_id: String,
    pub role: String,
    pub chunks_generated: usize,
}

/// Ghost model of one outbound protocol message, independent of how a
/// delivery mode renders it into a frame.
pub enum MsgModel {
    /// One key chunk with its zero-based index and raw bytes.
    Chunk { index: int, raw: Seq<u8> },
    /// A progress report.
    Progress { current: int, total: int },
    /// Terminal success of one request.
    Complete { total: int },
    /// Terminal failure of one request.
    Failure { message: Seq<char> },
    /// Reply to a liveness probe.
    Pong,
}

/// The error text reported when the entropy source fails.
pub open spec fn entropy_failure_text() -> Seq<char> {
    "Random generation failed"@
}

/// Whether frame `f` is the rendering of message `m` under `mode`.
pub open spec fn frame_is(mode: DeliveryMode, f: Frame, m: MsgModel) -> bool {
    match m {
        MsgModel::Chunk { index, raw } => match f {
            Frame::Text(s) => mode is Text && s@ == render_key_chunk(index, spec_base64(raw)),
            Frame::Binary(b) => mode is Binary && b@ == raw,
        },
        MsgModel::Progress { current, total } => f matches Frame::Text(s) && s@
            == render_progress(current, total),
        MsgModel::Complete { total } => f matches Frame::Text(s) && s@
            == render_session_complete(total),
        MsgModel::Failure { message } => f matches Frame::Text(s) && s@ == render_error(message),
        MsgModel::Pong => f matches Frame::Text(s) && s@ == "pong"@,
    }
}

/// Whether the frames `fs` render the message sequence `ms` under `mode`.
pub open spec fn frames_are(mode: DeliveryMode, fs: Seq<Frame>, ms: Seq<MsgModel>) -> bool {
    fs.len() == ms.len() && forall|i: int|
        0 <= i < ms.len() ==> frame_is(mode, #[trigger] fs[i], ms[i])
}

proof fn lemma_frames_are_concat(
    mode: DeliveryMode,
    f1: Seq<Frame>,
    f2: Seq<Frame>,
    m1: Seq<MsgModel>,
    m2: Seq<MsgModel>,
)
    requires
        frames_are(mode, f1, m1),
        frames_are(mode, f2, m2),
    ensures
        frames_are(mode, f1 + f2, m1 + m2),
{
    assert forall|i: int| 0 <= i < (m1 + m2).len() implies frame_is(
        mode,
        #[trigger] (f1 + f2)[i],
        (m1 + m2)[i],
    ) by {
        if i < m1.len() {
            assert((f1 + f2)[i] == f1[i]);
            assert((m1 + m2)[i] == m1[i]);
        } else {
            assert((f1 + f2)[i] == f2[i - m1.len()]);
            assert((m1 + m2)[i] == m2[i - m1.len()]);
        }
    }
}

/// Clamps a requested chunk count to the streaming ceiling.
pub open spec fn clamp_stream(n: int) -> int {
    if n > STREAM_CHUNK_CEILING as int {
        STREAM_CHUNK_CEILING as int
    } else {
        n
    }
}

/// Whether a progress report follows the chunk with index `i` of a
/// transaction of `n` chunks: at the fixed cadence, and on the last.
pub open spec fn progress_due(i: int, n: int) -> bool {
    (i + 1) % (PROGRESS_INTERVAL as int) == 0 || i == n - 1
}

/// The messages emitted for the chunk with index `i` of a transaction of
/// `n` chunks whose raw bytes are `raw`: the chunk, then a progress
/// report when one is due, then completion after the last chunk.
pub open spec fn chunk_step_msgs(i: int, n: int, raw: Seq<u8>) -> Seq<MsgModel> {
    seq![MsgModel::Chunk { index: i, raw }] + (if progress_due(i, n) {
        seq![MsgModel::Progress { current: i + 1, total: n }]
    } else {
        Seq::empty()
    }) + (if i + 1 == n {
        seq![MsgModel::Complete { total: n }]
    } else {
        Seq::empty()
    })
}

/// The messages of one whole transaction of `n` chunks, from chunk `i`
/// on, with payloads from `data`.  A transaction of zero chunks is just
/// its completion message.
pub open spec fn transcript_from(i: int, n: int, data: Seq<Seq<u8>>) -> Seq<MsgModel>
    decreases n - i,
    when 0 <= i <= n
{
    if i >= n {
        if n == 0 {
            seq![MsgModel::Complete { total: 0 }]
        } else {
            Seq::empty()
        }
    } else {
        chunk_step_msgs(i, n, data[i]) + transcript_from(i + 1, n, data)
    }
}

/// The messages of one whole transaction of `n` chunks.
pub open spec fn transcript(n: int, data: Seq<Seq<u8>>) -> Seq<MsgModel> {
    transcript_from(0, n, data)
}

/// The messages already emitted once the chunks in `[i0, i)` of a
/// transaction of `n` chunks are out.
pub open spec fn transcript_seg(i0: int, i: int, n: int, data: Seq<Seq<u8>>) -> Seq<MsgModel>
    decreases i - i0,
{
    if i <= i0 {
        Seq::empty()
    } else {
        transcript_seg(i0, i - 1, n, data) + chunk_step_msgs(i - 1, n, data[i - 1])
    }
}

/// The emitted segment only reads the payloads in `[i0, i)`.
proof fn lemma_seg_stable(i0: int, i: int, n: int, d1: Seq<Seq<u8>>, d2: Seq<Seq<u8>>)
    requires
        forall|j: int| i0 <= j < i ==> d1[j] == d2[j],
    ensures
        transcript_seg(i0, i, n, d1) == transcript_seg(i0, i, n, d2),
    decreases i - i0,
{
    if i > i0 {
        lemma_seg_stable(i0, i - 1, n, d1, d2);
    }
}

/// Emitted segment plus remaining tail is the whole remaining
/// transcript.
proof fn lemma_seg_from(i0: int, j: int, n: int, data: Seq<Seq<u8>>)
    requires
        0 <= i0 <= j <= n,
        n > 0,
    ensures
        transcript_seg(i0, j, n, data) + transcript_from(j, n, data) =~= transcript_from(
            i0,
            n,
            data,
        ),
    decreases j - i0,
{
    if j == i0 {
        assert(transcript_seg(i0, i0, n, data) + transcript_from(i0, n, data) =~= transcript_from(
            i0,
            n,
            data,
        ));
    } else {
        lemma_seg_from(i0, j - 1, n, data);
        assert(transcript_from(j - 1, n, data) =~= chunk_step_msgs(j - 1, n, data[j - 1])
            + transcript_from(j, n, data));
        assert(transcript_seg(i0, j, n, data) + transcript_from(j, n, data) =~= (transcript_seg(
            i0,
            j - 1,
            n,
            data,
        ) + chunk_step_msgs(j - 1, n, data[j - 1])) + transcript_from(j, n, data));
        assert((transcript_seg(i0, j - 1, n, data) + chunk_step_msgs(j - 1, n, data[j - 1]))
            + transcript_from(j, n, data) =~= transcript_seg(i0, j - 1, n, data) + (chunk_step_msgs(
            j - 1,
            n,
            data[j - 1],
        ) + transcript_from(j, n, data)));
    }
}

/// One key-delivery session: identity, counters, lifecycle phase and
/// delivery mode.  The session never stores key bytes.
pub struct VernamSession {
    pub session_id: String,
    pub role: String,
    pub chunks_generated: usize,
    pub phase: Phase,
    pub mode: DeliveryMode,
}

/// Everything a session's transport driver gets back for one inbound
/// text frame: the frames to send, and whether to close the connection
/// afterwards (with the normal-closure code).
pub struct Outcome {
    pub frames: Vec<Frame>,
    pub close: bool,
}

/// The normal-closure code sent when a session ends gracefully.
pub const NORMAL_CLOSURE: u16 = 1000;

impl VernamSession {
    /// Internal invariant: a running transaction is within its clamped
    /// total, which is within the ceiling.
    pub open spec fn wf(self) -> bool {
        match self.phase {
            Phase::Generating { next_index, total } => next_index < total && total
                <= STREAM_CHUNK_CEILING,
            _ => true,
        }
    }

    /// The client message a text frame means under this session's mode.
    pub open spec fn spec_parse_frame(self, t: Seq<char>) -> Option<ClientMessage> {
        match self.mode {
            DeliveryMode::Text => spec_parse_client_message(t),
            DeliveryMode::Binary => match spec_parse_stateless_request(t) {
                Some(n) => Some(ClientMessage::RequestKey { chunk_count: n }),
                None => None,
            },
        }
    }

    /// The session after one client control message.
    pub open spec fn spec_apply(s: Self, m: ClientMessage) -> Self {
        if s.phase is Closed {
            s
        } else {
            match m {
                ClientMessage::RequestKey { chunk_count } => {
                    if s.phase is Idle && clamp_stream(chunk_count as int) > 0 {
                        Self {
                            phase: Phase::Generating {
                                next_index: 0,
                                total: clamp_stream(chunk_count as int) as usize,
                            },
                            ..s
                        }
                    } else {
                        s
                    }
                },
                ClientMessage::EndSession => Self { phase: Phase::Closed, ..s },
            }
        }
    }

    /// The messages emitted in direct reply to one client control
    /// message (the chunks of a request follow from the paced steps).
    pub open spec fn spec_apply_out(s: Self, m: ClientMessage) -> Seq<MsgModel> {
        if s.phase is Closed {
            Seq::empty()
        } else {
            match m {
                ClientMessage::RequestKey { chunk_count } => {
                    if s.phase is Idle && clamp_stream(chunk_count as int) == 0 {
                        seq![MsgModel::Complete { total: 0 }]
                    } else {
                        Seq::empty()
                    }
                },
                ClientMessage::EndSession => seq![MsgModel::Complete { total: 0 }],
            }
        }
    }

    /// Whether one client control message closes the transport.
    pub open spec fn spec_apply_closes(s: Self, m: ClientMessage) -> bool {
        !(s.phase is Closed) && m is EndSession
    }

    /// A fresh session-scoped session.
    pub fn new_session(session_id: String, role: String) -> (s: Self)
        ensures
            s.session_id == session_id,
            s.role == role,
            s.chunks_generated == 0,
            s.phase is Idle,
            s.mode is Text,
            s.wf(),
    {
        VernamSession {
            session_id,
            role,
            chunks_generated: 0,
            phase: Phase::Idle,
            mode: DeliveryMode::Text,
        }
    }

    /// A fresh stateless streaming connection: no identity, raw binary
    /// chunk delivery.
    pub fn stateless() -> (s: Self)
        ensures
            s.session_id@ == Seq::<char>::empty(),
            s.role@ == Seq::<char>::empty(),
            s.chunks_generated == 0,
            s.phase is Idle,
            s.mode is Binary,
            s.wf(),
    {
        VernamSession {
            session_id: String::new(),
            role: String::new(),
            chunks_generated: 0,
            phase: Phase::Idle,
            mode: DeliveryMode::Binary,
        }
    }

    /// The durable attachment of this session.
    pub open spec fn spec_attachment(s: Self) -> SessionState {
        SessionState {
            session_id: s.session_id,
            role: s.role,
            chunks_generated: s.chunks_generated,
        }
    }

    /// Extracts the durable attachment: identity and counters, never
    /// key bytes.
    pub fn attachment(&self) -> (a: SessionState)
        ensures
            a == Self::spec_attachment(*self),
    {
        SessionState {
            session_id: self.session_id.clone(),
            role: self.role.clone(),
            chunks_generated: self.chunks_generated,
        }
    }

    /// The session a durable attachment rehydrates to.
    pub open spec fn spec_resume(a: SessionState) -> Self {
        VernamSession {
            session_id: a.session_id,
            role: a.role,
            chunks_generated: a.chunks_generated,
            phase: Phase::Idle,
            mode: DeliveryMode::Text,
        }
    }

    /// Rehydrates a session from its durable attachment after the
    /// connection was suspended: identity and counters continue, and no
    /// in-flight chunk data survives (an interrupted request simply
    /// ended incomplete).
    pub fn resume(a: SessionState) -> (s: Self)
        ensures
            s == Self::spec_resume(a),
            s.wf(),
    {
        VernamSession {
            session_id: a.session_id,
            role: a.role,
            chunks_generated: a.chunks_generated,
            phase: Phase::Idle,
            mode: DeliveryMode::Text,
        }
    }

    /// The `connected` greeting for this session's identity.
    pub fn connected_message(&self) -> (r: String)
        ensures
            r@ == render_connected(self.session_id@, self.role@),
    {
        let m = ServerMessage::Connected {
            session_id: self.session_id.clone(),
            role: self.role.clone(),
        };
        render_server_message(&m)
    }

    /// Whether a request transaction is in flight.
    pub fn is_generating(&self) -> (r: bool)
        ensures
            r == (self.phase is Generating),
    {
        match self.phase {
            Phase::Generating { .. } => true,
            _ => false,
        }
    }

    /// Handles one inbound text frame: `ping` is answered with `pong` and
    /// changes nothing in any phase; a well-formed control message is
    /// applied; any
    /// frame outside the protocol is silently dropped; a closed session
    /// absorbs every control message without output.  A `request_key`
    /// while one is already generating is
    /// dropped, so a second request can never interleave chunk indices
    /// with the first.
    pub fn on_text(&mut self, text: &str) -> (out: Outcome)
        requires
            old(self).wf(),
        ensures
            final(self).wf(),
            final(self).session_id == old(self).session_id,
            final(self).role == old(self).role,
            final(self).chunks_generated == old(self).chunks_generated,
            final(self).mode == old(self).mode,
            text@ == "ping"@ ==> *final(self) == *old(self) && frames_are(
                old(self).mode,
                out.frames@,
                seq![MsgModel::Pong],
            ) && !out.close,
            text@ != "ping"@ && old(self).phase is Closed ==> *final(self) == *old(self)
                && out.frames@.len() == 0 && !out.close,
            text@ != "ping"@ && !(old(self).phase is Closed) ==> match old(self).spec_parse_frame(
                text@,
            ) {
                Some(m) => *final(self) == Self::spec_apply(*old(self), m) && frames_are(
                    old(self).mode,
                    out.frames@,
                    Self::spec_apply_out(*old(self), m),
                ) && out.close == Self::spec_apply_closes(*old(self), m),
                None => *final(self) == *old(self) && out.frames@.len() == 0 && !out.close,
            },
    {
        if crate::strutil::str_eq(text, "ping") {
            let mut v: Vec<Frame> = Vec::new();
            v.push(Frame::Text(String::from_str("pong")));
            assert(frames_are(self.mode, v@, seq![MsgModel::Pong]));
            return Outcome { frames: v, close: false };
        }
        let closed = match self.phase {
            Phase::Closed => true,
            _ => false,
        };
        if closed {
            return Outcome { frames: Vec::new(), close: false };
        }
        let parsed: Option<ClientMessage> = match self.mode {
            DeliveryMode::Text => parse_client_message(text),
            DeliveryMode::Binary => match parse_stateless_request(text) {
                Some(n) => Some(ClientMessage::RequestKey { chunk_count: n }),
                None => None,
            },
        };
        match parsed {
            None => Outcome { frames: Vec::new(), close: false },
            Some(ClientMessage::RequestKey { chunk_count }) => {
                let idle = match self.phase {
                    Phase::Idle => true,
                    _ => false,
                };
                if idle {
                    let c = if chunk_count > STREAM_CHUNK_CEILING {
                        STREAM_CHUNK_CEILING
                    } else {
                        chunk_count
                    };
                    if c == 0 {
                        let mut v: Vec<Frame> = Vec::new();
                        v.push(
                            Frame::Text(
                                render_server_message(
                                    &ServerMessage::SessionComplete { total_chunks: 0 },
                                ),
                            ),
                        );
                        assert(frames_are(
                            self.mode,
                            v@,
                            seq![MsgModel::Complete { total: 0 }],
                        ));
                        Outcome { frames: v, close: false }
                    } else {
                        self.phase = Phase::Generating { next_index: 0, total: c };
                        Outcome { frames: Vec::new(), close: false }
                    }
                } else {
                    Outcome { frames: Vec::new(), close: false }
                }
            },
            Some(ClientMessage::EndSession) => {
                self.phase = Phase::Closed;
                let mut v: Vec<Frame> = Vec::new();
                v.push(
                    Frame::Text(
                        render_server_message(&ServerMessage::SessionComplete { total_chunks: 0 }),
                    ),
                );
                assert(frames_are(self.mode, v@, seq![MsgModel::Complete { total: 0 }]));
                Outcome { frames: v, close: true }
            },
        }
    }

    /// Generates and frames exactly one chunk of the running request:
    /// the pacing step.  A transport driver calls this repeatedly while
    /// a request is in flight, transmitting the returned frames and
    /// yielding to the event loop between calls, so that one chunk at a
    /// time is in memory and inbound control messages stay serviceable.
    /// On entropy failure the request is abandoned with an error message
    /// and the session returns to `Idle`, usable for a fresh request.
    pub fn generate_step(&mut self) -> (out: Vec<Frame>)
        requires
            old(self).wf(),
            old(self).chunks_generated < usize::MAX,
        ensures
            final(self).wf(),
            final(self).session_id == old(self).session_id,
            final(self).role == old(self).role,
            final(self).mode == old(self).mode,
            final(self).chunks_generated >= old(self).chunks_generated,
            !(old(self).phase is Generating) ==> *final(self) == *old(self) && out@.len() == 0,
            old(self).phase matches Phase::Generating { next_index: i, total: n } ==> {
                ||| (exists|raw: Seq<u8>|
                    raw.len() == CHUNK_SIZE as int && frames_are(
                        old(self).mode,
                        out@,
                        chunk_step_msgs(i as int, n as int, raw),
                    ) && final(self).chunks_generated == old(self).chunks_generated + 1 && (*final(self)).phase == (if i + 1 == n {
                        Phase::Idle
                    } else {
                        Phase::Generating { next_index: (i + 1) as usize, total: n }
                    }))
                ||| (frames_are(
                    old(self).mode,
                    out@,
                    seq![MsgModel::Failure { message: entropy_failure_text() }],
                ) && final(self).chunks_generated == old(self).chunks_generated && final(self).phase is Idle)
            },
    {
        let (i, n) = match self.phase {
            Phase::Generating { next_index, total } => (next_index, total),
            _ => {
                return Vec::new();
            },
        };
        match random_bytes(CHUNK_SIZE) {
            Err(_) => {
                self.phase = Phase::Idle;
                let msg = render_server_message(
                    &ServerMessage::Error { message: String::from_str("Random generation failed") },
                );
                let mut v: Vec<Frame> = Vec::new();
                v.push(Frame::Text(msg));
                assert(frames_are(
                    self.mode,
                    v@,
                    seq![MsgModel::Failure { message: entropy_failure_text() }],
                ));
                v
            },
            Ok(raw) => {
                let ghost graw = raw@;
                let ghost msgs = chunk_step_msgs(i as int, n as int, graw);
                let mut v: Vec<Frame> = Vec::new();
                match self.mode {
                    DeliveryMode::Text => {
                        let data = base64_encode(&raw);
                        let msg = render_server_message(
                            &ServerMessage::KeyChunk { index: i, data },
                        );
                        v.push(Frame::Text(msg));
                    },
                    DeliveryMode::Binary => {
                        v.push(Frame::Binary(raw));
                    },
                }
                assert(frame_is(self.mode, v@[0], MsgModel::Chunk { index: i as int, raw: graw }));
                if (i + 1) % PROGRESS_INTERVAL == 0 || i + 1 == n {
                    let msg = render_server_message(
                        &ServerMessage::Progress { current: i + 1, total: n },
                    );
                    v.push(Frame::Text(msg));
                }
                self.chunks_generated = self.chunks_generated + 1;
                if i + 1 == n {
                    self.phase = Phase::Idle;
                    let msg = render_server_message(
                        &ServerMessage::SessionComplete { total_chunks: n },
                    );
                    v.push(Frame::Text(msg));
                } else {
                    self.phase = Phase::Generating { next_index: i + 1, total: n };
                }
                proof {
                    if progress_due(i as int, n as int) {
                        if i + 1 == n {
                            assert(msgs =~= seq![
                                MsgModel::Chunk { index: i as int, raw: graw },
                                MsgModel::Progress { current: i as int + 1, total: n as int },
                                MsgModel::Complete { total: n as int },
                            ]);
                        } else {
                            assert(msgs =~= seq![
                                MsgModel::Chunk { index: i as int, raw: graw },
                                MsgModel::Progress { current: i as int + 1, total: n as int },
                            ]);
                        }
                    } else {
                        assert(!(i + 1 == n));
                        assert(msgs =~= seq![MsgModel::Chunk { index: i as int, raw: graw }]);
                    }
                    assert(frames_are(old(self).mode, v@, msgs));
                }
                v
            },
        }
    }

    /// Drives the running transaction to its end, collecting every
    /// outbound frame of the paced loop: one `generate_step` per chunk,
    /// so one chunk at a time is in memory.  Without a running
    /// transaction this changes nothing.  A transport driver that must
    /// interleave inbound control messages calls `generate_step`
    /// directly instead.
    pub fn run_request_steps(&mut self) -> (out: Vec<Frame>)
        requires
            old(self).wf(),
            old(self).phase matches Phase::Generating { next_index: i0, total: t } ==> old(self).chunks_generated + t - i0 <= usize::MAX,
        ensures
            final(self).wf(),
            final(self).session_id == old(self).session_id,
            final(self).role == old(self).role,
            final(self).mode == old(self).mode,
            !(old(self).phase is Generating) ==> *final(self) == *old(self) && out@.len() == 0,
            old(self).phase matches Phase::Generating { next_index: i0, total: n } ==> final(self).phase is Idle && {
                ||| (exists|data: Seq<Seq<u8>>|
                    data.len() == n as int && (forall|j: int|
                        i0 as int <= j < n as int ==> (#[trigger] data[j]).len()
                            == CHUNK_SIZE as int) && frames_are(
                        old(self).mode,
                        out@,
                        transcript_from(i0 as int, n as int, data),
                    ) && final(self).chunks_generated == old(self).chunks_generated + n - i0)
                ||| (exists|data: Seq<Seq<u8>>, k: int|
                    i0 as int <= k < n as int && data.len() == k && frames_are(
                        old(self).mode,
                        out@,
                        transcript_seg(i0 as int, k, n as int, data) + seq![
                            MsgModel::Failure { message: entropy_failure_text() },
                        ],
                    ) && final(self).chunks_generated == old(self).chunks_generated + k - i0)
            },
    {
        let mut out: Vec<Frame> = Vec::new();
        let (start, n) = match self.phase {
            Phase::Generating { next_index, total } => (next_index, total),
            _ => {
                return out;
            },
        };
        let ghost i0 = start as int;
        let ghost mut data: Seq<Seq<u8>> = Seq::new(i0 as nat, |j: int| Seq::<u8>::empty());
        let ghost mut aborted: bool = false;
        let mut running = true;
        while running
            invariant
                self.wf(),
                self.session_id == old(self).session_id,
                self.role == old(self).role,
                self.mode == old(self).mode,
                0 <= i0 < n <= STREAM_CHUNK_CEILING,
                old(self).chunks_generated + n - i0 <= usize::MAX,
                running == (self.phase is Generating),
                running ==> !aborted,
                !aborted ==> match self.phase {
                    Phase::Generating { next_index: i, total: t } => t == n && i0 <= i as int
                        && i as int == data.len() && self.chunks_generated as int == old(
                        self,
                    ).chunks_generated + i - i0 && (forall|j: int|
                        i0 <= j < data.len() ==> (#[trigger] data[j]).len() == CHUNK_SIZE as int)
                        && frames_are(
                        self.mode,
                        out@,
                        transcript_seg(i0, i as int, n as int, data),
                    ),
                    Phase::Idle => data.len() == n as int && self.chunks_generated as int == old(
                        self,
                    ).chunks_generated + n - i0 && (forall|j: int|
                        i0 <= j < data.len() ==> (#[trigger] data[j]).len() == CHUNK_SIZE as int)
                        && frames_are(
                        self.mode,
                        out@,
                        transcript_seg(i0, n as int, n as int, data),
                    ),
                    Phase::Closed => false,
                },
                aborted ==> self.phase is Idle && (exists|d: Seq<Seq<u8>>, k: int|
                    i0 <= k < n as int && d.len() == k && frames_are(
                        self.mode,
                        out@,
                        transcript_seg(i0, k, n as int, d) + seq![
                            MsgModel::Failure { message: entropy_failure_text() },
                        ],
                    ) && self.chunks_generated as int == old(self).chunks_generated + k - i0),
            decreases n as int - (self.chunks_generated as int - old(self).chunks_generated as int), if running {
                1int
            } else {
                0int
            },
        {
            let ghost pre_frames = out@;
            let ghost pre_i: int = match self.phase {
                Phase::Generating { next_index, .. } => next_index as int,
                _ => 0,
            };
            let ghost pre_chunks: int = self.chunks_generated as int;
            let mut step = self.generate_step();
            let ghost step_frames = step@;
            out.append(&mut step);
            running = self.is_generating();
            proof {
                if self.chunks_generated as int == pre_chunks + 1 {
                    let raw = choose|raw: Seq<u8>|
                        raw.len() == CHUNK_SIZE as int && frames_are(
                            self.mode,
                            step_frames,
                            chunk_step_msgs(pre_i, n as int, raw),
                        );
                    let data2 = data.push(raw);
                    lemma_seg_stable(i0, pre_i, n as int, data, data2);
                    assert(transcript_seg(i0, pre_i + 1, n as int, data2) == transcript_seg(
                        i0,
                        pre_i,
                        n as int,
                        data2,
                    ) + chunk_step_msgs(pre_i, n as int, raw));
                    lemma_frames_are_concat(
                        self.mode,
                        pre_frames,
                        step_frames,
                        transcript_seg(i0, pre_i, n as int, data),
                        chunk_step_msgs(pre_i, n as int, raw),
                    );
                    data = data2;
                } else {
                    lemma_frames_are_concat(
                        self.mode,
                        pre_frames,
                        step_frames,
                        transcript_seg(i0, pre_i, n as int, data),
                        seq![MsgModel::Failure { message: entropy_failure_text() }],
                    );
                    aborted = true;
                }
            }
        }
        proof {
            if !aborted {
                lemma_seg_from(i0, n as int, n as int, data);
                assert(transcript_from(n as int, n as int, data) =~= Seq::empty());
                assert(transcript_seg(i0, n as int, n as int, data) + transcript_from(
                    n as int,
                    n as int,
                    data,
                ) =~= transcript_seg(i0, n as int, n as int, data));
                assert(frames_are(self.mode, out@, transcript_from(i0, n as int, data)));
                assert(data.len() == n as int && (forall|j: int|
                    i0 <= j < n as int ==> (#[trigger] data[j]).len() == CHUNK_SIZE as int)
                    && frames_are(old(self).mode, out@, transcript_from(i0, n as int, data))
                    && self.chunks_generated as int == old(self).chunks_generated + n - i0);
            }
        }
        out
    }

    /// Handles one whole `request_key` transaction from idle, collecting
    /// every outbound frame of the paced loop into one vector: the
    /// clamped chunk count's chunks in order, the due progress reports,
    /// and the terminal message.
    pub fn run_request(&mut self, chunk_count: usize) -> (out: Vec<Frame>)
        requires
            old(self).wf(),
            old(self).phase is Idle,
            old(self).chunks_generated + clamp_stream(chunk_count as int) <= usize::MAX,
        ensures
            final(self).wf(),
            final(self).phase is Idle,
            final(self).session_id == old(self).session_id,
            final(self).role == old(self).role,
            final(self).mode == old(self).mode,
            ({
                let n = clamp_stream(chunk_count as int);
                ||| (exists|data: Seq<Seq<u8>>|
                    data.len() == n && (forall|j: int|
                        0 <= j < n ==> (#[trigger] data[j]).len() == CHUNK_SIZE as int)
                        && frames_are(old(self).mode, out@, transcript(n, data)) && final(self).chunks_generated == old(self).chunks_generated + n)
                ||| (exists|data: Seq<Seq<u8>>, k: int|
                    0 <= k < n && data.len() == k && frames_are(
                        old(self).mode,
                        out@,
                        transcript_seg(0, k, n, data) + seq![
                            MsgModel::Failure { message: entropy_failure_text() },
                        ],
                    ) && final(self).chunks_generated == old(self).chunks_generated + k)
            }),
    {
        let n = if chunk_count > STREAM_CHUNK_CEILING {
            STREAM_CHUNK_CEILING
        } else {
            chunk_count
        };
        let mut out: Vec<Frame> = Vec::new();
        if n == 0 {
            out.push(
                Frame::Text(
                    render_server_message(&ServerMessage::SessionComplete { total_chunks: 0 }),
                ),
            );
            proof {
                let n_int = clamp_stream(chunk_count as int);
                let data = Seq::<Seq<u8>>::empty();
                assert(n_int == 0);
                assert(transcript(n_int, data) =~= seq![MsgModel::Complete { total: 0 }]);
                assert(data.len() == n_int && (forall|j: int|
                    0 <= j < n_int ==> (#[trigger] data[j]).len() == CHUNK_SIZE as int)
                    && frames_are(old(self).mode, out@, transcript(n_int, data))
                    && self.chunks_generated == old(self).chunks_generated + n_int);
            }
            return out;
        }
        self.phase = Phase::Generating { next_index: 0, total: n };
        self.run_request_steps()
    }
}

} // verus!
