//! The protocol's guarantees, stated and proved over the session
//! machine's transcript model: exact chunk delivery, clamp behaviour,
//! progress monotonicity, suspension identity, and termination of a
//! closed session.

use vstd::prelude::*;
use crate::STREAM_CHUNK_CEILING;
use crate::session::MsgModel;
use crate::session::VernamSession;
use crate::session::chunk_step_msgs;
use crate::session::transcript;
use crate::session::transcript_from;
use crate::session::progress_due;
use crate::session::clamp_stream;
use crate::messages::ClientMessage;

verus! {

/// The subsequence of `ms` that satisfies `p`, in order.
pub open spec fn keep(p: spec_fn(MsgModel) -> bool, ms: Seq<MsgModel>) -> Seq<MsgModel>
    decreases ms.len(),
{
    if ms.len() == 0 {
        Seq::empty()
    } else {
        (if p(ms[0]) {
            seq![ms[0]]
        } else {
            Seq::empty()
        }) + keep(p, ms.skip(1))
    }
}

proof fn lemma_keep_empty(p: spec_fn(MsgModel) -> bool)
    ensures
        keep(p, Seq::empty()) =~= Seq::empty(),
{
}

proof fn lemma_keep_one(p: spec_fn(MsgModel) -> bool, m: MsgModel)
    ensures
        keep(p, seq![m]) =~= if p(m) {
            seq![m]
        } else {
            Seq::empty()
        },
{
    assert(seq![m].skip(1) =~= Seq::<MsgModel>::empty());
    lemma_keep_empty(p);
}

proof fn lemma_keep_add(p: spec_fn(MsgModel) -> bool, a: Seq<MsgModel>, b: Seq<MsgModel>)
    ensures
        keep(p, a + b) =~= keep(p, a) + keep(p, b),
    decreases a.len(),
{
    if a.len() == 0 {
        assert(a + b =~= b);
        lemma_keep_empty(p);
    } else {
        assert((a + b).skip(1) =~= a.skip(1) + b);
        assert((a + b)[0] == a[0]);
        lemma_keep_add(p, a.skip(1), b);
        assert(keep(p, a) =~= (if p(a[0]) {
            seq![a[0]]
        } else {
            Seq::empty()
        }) + keep(p, a.skip(1)));
        assert(keep(p, a + b) =~= (if p(a[0]) {
            seq![a[0]]
        } else {
            Seq::empty()
        }) + (keep(p, a.skip(1)) + keep(p, b)));
        assert(keep(p, a) + keep(p, b) =~= (if p(a[0]) {
            seq![a[0]]
        } else {
            Seq::empty()
        }) + (keep(p, a.skip(1)) + keep(p, b)));
    }
}

/// The key chunks of a message sequence, in order.
pub open spec fn chunk_messages(ms: Seq<MsgModel>) -> Seq<MsgModel> {
    keep(|m: MsgModel| m is Chunk, ms)
}

/// The completion messages of a message sequence.
pub open spec fn complete_messages(ms: Seq<MsgModel>) -> Seq<MsgModel> {
    keep(|m: MsgModel| m is Complete, ms)
}

/// The progress reports of a message sequence, in order.
pub open spec fn progress_messages(ms: Seq<MsgModel>) -> Seq<MsgModel> {
    keep(|m: MsgModel| m is Progress, ms)
}

pub open spec fn progress_current(m: MsgModel) -> int {
    match m {
        MsgModel::Progress { current, .. } => current,
        _ => 0,
    }
}

pub open spec fn progress_total(m: MsgModel) -> int {
    match m {
        MsgModel::Progress { total, .. } => total,
        _ => 0,
    }
}

proof fn lemma_step_keeps(i: int, n: int, raw: Seq<u8>)
    ensures
        chunk_messages(chunk_step_msgs(i, n, raw)) =~= seq![MsgModel::Chunk { index: i, raw }],
        complete_messages(chunk_step_msgs(i, n, raw)) =~= if i + 1 == n {
            seq![MsgModel::Complete { total: n }]
        } else {
            Seq::empty()
        },
        progress_messages(chunk_step_msgs(i, n, raw)) =~= if progress_due(i, n) {
            seq![MsgModel::Progress { current: i + 1, total: n }]
        } else {
            Seq::empty()
        },
{
    let pc = |m: MsgModel| m is Chunk;
    let pd = |m: MsgModel| m is Complete;
    let pp = |m: MsgModel| m is Progress;
    let c = seq![MsgModel::Chunk { index: i, raw }];
    let pr: Seq<MsgModel> = if progress_due(i, n) {
        seq![MsgModel::Progress { current: i + 1, total: n }]
    } else {
        Seq::empty()
    };
    let co: Seq<MsgModel> = if i + 1 == n {
        seq![MsgModel::Complete { total: n }]
    } else {
        Seq::empty()
    };
    lemma_keep_add(pc, c + pr, co);
    lemma_keep_add(pc, c, pr);
    lemma_keep_add(pd, c + pr, co);
    lemma_keep_add(pd, c, pr);
    lemma_keep_add(pp, c + pr, co);
    lemma_keep_add(pp, c, pr);
    lemma_keep_one(pc, MsgModel::Chunk { index: i, raw });
    lemma_keep_one(pd, MsgModel::Chunk { index: i, raw });
    lemma_keep_one(pp, MsgModel::Chunk { index: i, raw });
    if progress_due(i, n) {
        lemma_keep_one(pc, MsgModel::Progress { current: i + 1, total: n });
        lemma_keep_one(pd, MsgModel::Progress { current: i + 1, total: n });
        lemma_keep_one(pp, MsgModel::Progress { current: i + 1, total: n });
    } else {
        lemma_keep_empty(pc);
        lemma_keep_empty(pd);
        lemma_keep_empty(pp);
    }
    if i + 1 == n {
        lemma_keep_one(pc, MsgModel::Complete { total: n });
        lemma_keep_one(pd, MsgModel::Complete { total: n });
        lemma_keep_one(pp, MsgModel::Complete { total: n });
    } else {
        lemma_keep_empty(pc);
        lemma_keep_empty(pd);
        lemma_keep_empty(pp);
    }
}

proof fn lemma_transcript_from_facts(i: int, n: int, data: Seq<Seq<u8>>)
    requires
        0 <= i < n,
        data.len() == n,
    ensures
        chunk_messages(transcript_from(i, n, data)) =~= Seq::new(
            (n - i) as nat,
            |j: int| MsgModel::Chunk { index: i + j, raw: data[i + j] },
        ),
        complete_messages(transcript_from(i, n, data)) =~= seq![MsgModel::Complete { total: n }],
        transcript_from(i, n, data).len() > 0,
        transcript_from(i, n, data).last() == (MsgModel::Complete { total: n }),
        progress_messages(transcript_from(i, n, data)).len() > 0,
        progress_messages(transcript_from(i, n, data)).last() == (MsgModel::Progress {
            current: n,
            total: n,
        }),
        forall|a: int|
            0 <= a < progress_messages(transcript_from(i, n, data)).len()
                ==> progress_total(#[trigger] progress_messages(transcript_from(i, n, data))[a])
                == n && i + 1 <= progress_current(progress_messages(transcript_from(i, n, data))[a])
                <= n,
        forall|a: int, b: int|
            0 <= a <= b < progress_messages(transcript_from(i, n, data)).len()
                ==> progress_current(#[trigger] progress_messages(transcript_from(i, n, data))[a])
                <= progress_current(#[trigger] progress_messages(transcript_from(i, n, data))[b]),
    decreases n - i,
{
    let pc = |m: MsgModel| m is Chunk;
    let pd = |m: MsgModel| m is Complete;
    let pp = |m: MsgModel| m is Progress;
    let step = chunk_step_msgs(i, n, data[i]);
    let rest = transcript_from(i + 1, n, data);
    assert(transcript_from(i, n, data) == step + rest);
    lemma_step_keeps(i, n, data[i]);
    lemma_keep_add(pc, step, rest);
    lemma_keep_add(pd, step, rest);
    lemma_keep_add(pp, step, rest);
    if i + 1 == n {
        assert(rest =~= Seq::<MsgModel>::empty());
        lemma_keep_empty(pc);
        lemma_keep_empty(pd);
        lemma_keep_empty(pp);
        assert(progress_due(i, n));
        assert(chunk_messages(transcript_from(i, n, data)) =~= Seq::new(
            (n - i) as nat,
            |j: int| MsgModel::Chunk { index: i + j, raw: data[i + j] },
        ));
        assert(step.len() == 3);
        assert((step + rest).last() == step[2]);
    } else {
        lemma_transcript_from_facts(i + 1, n, data);
        assert(chunk_messages(transcript_from(i, n, data)) =~= seq![
            MsgModel::Chunk { index: i, raw: data[i] },
        ] + Seq::new((n - i - 1) as nat, |j: int| MsgModel::Chunk { index: i + 1 + j, raw: data[i + 1 + j] }));
        assert(chunk_messages(transcript_from(i, n, data)) =~= Seq::new(
            (n - i) as nat,
            |j: int| MsgModel::Chunk { index: i + j, raw: data[i + j] },
        ));
        assert(rest.len() > 0);
        assert((step + rest).last() == rest.last());
        let ps = progress_messages(transcript_from(i, n, data));
        let psr = progress_messages(rest);
        let head: Seq<MsgModel> = if progress_due(i, n) {
            seq![MsgModel::Progress { current: i + 1, total: n }]
        } else {
            Seq::empty()
        };
        assert(ps =~= head + psr);
        assert(psr.len() > 0);
        assert(ps.last() == psr.last());
        assert forall|a: int| 0 <= a < ps.len() implies progress_total(#[trigger] ps[a]) == n && i
            + 1 <= progress_current(ps[a]) <= n by {
            if a < head.len() {
            } else {
                assert(ps[a] == psr[a - head.len()]);
            }
        }
        assert forall|a: int, b: int| 0 <= a <= b < ps.len() implies progress_current(
            #[trigger] ps[a],
        ) <= progress_current(#[trigger] ps[b]) by {
            if a < head.len() {
                if b >= head.len() {
                    assert(ps[b] == psr[b - head.len()]);
                }
            } else {
                assert(ps[a] == psr[a - head.len()]);
                assert(ps[b] == psr[b - head.len()]);
            }
        }
    }
}

/// For a streaming request of `n` chunks the client receives exactly
/// the chunks with indices `0 .. n-1`, in that order and gapless, and
/// exactly one `session_complete` reporting `n`, which ends the
/// transcript.
pub proof fn lemma_request_delivers_exactly(n: int, data: Seq<Seq<u8>>)
    requires
        0 <= n == data.len(),
    ensures
        chunk_messages(transcript(n, data)) =~= Seq::new(
            n as nat,
            |j: int| MsgModel::Chunk { index: j, raw: data[j] },
        ),
        complete_messages(transcript(n, data)) =~= seq![MsgModel::Complete { total: n }],
        transcript(n, data).len() > 0,
        transcript(n, data).last() == (MsgModel::Complete { total: n }),
{
    if n == 0 {
        let pc = |m: MsgModel| m is Chunk;
        let pd = |m: MsgModel| m is Complete;
        assert(transcript(0, data) =~= seq![MsgModel::Complete { total: 0 }]);
        lemma_keep_one(pc, MsgModel::Complete { total: 0 });
        lemma_keep_one(pd, MsgModel::Complete { total: 0 });
        assert(chunk_messages(transcript(n, data)) =~= Seq::new(
            n as nat,
            |j: int| MsgModel::Chunk { index: j, raw: data[j] },
        ));
    } else {
        lemma_transcript_from_facts(0, n, data);
        assert(chunk_messages(transcript(n, data)) =~= Seq::new(
            n as nat,
            |j: int| MsgModel::Chunk { index: j, raw: data[j] },
        ));
    }
}

/// Progress reports of one request are non-decreasing in `current`, all
/// report the transaction's total, and the final one reports completion
/// of the whole total.
pub proof fn lemma_progress_monotone(n: int, data: Seq<Seq<u8>>)
    requires
        0 < n == data.len(),
    ensures
        ({
            let ps = progress_messages(transcript(n, data));
            &&& forall|a: int, b: int|
                0 <= a <= b < ps.len() ==> progress_current(#[trigger] ps[a]) <= progress_current(
                    #[trigger] ps[b],
                )
            &&& forall|a: int|
                0 <= a < ps.len() ==> progress_total(#[trigger] ps[a]) == n && progress_current(
                    ps[a],
                ) <= n
            &&& ps.len() > 0
            &&& ps.last() == (MsgModel::Progress { current: n, total: n })
        }),
{
    lemma_transcript_from_facts(0, n, data);
}

/// Requesting more than the ceiling behaves exactly as requesting the
/// ceiling: the clamped count, the post-state and the reply are the
/// same, and with them every later transcript.
pub proof fn lemma_clamp_idempotent(s: VernamSession, n: usize)
    requires
        n > STREAM_CHUNK_CEILING,
    ensures
        clamp_stream(n as int) == clamp_stream(STREAM_CHUNK_CEILING as int),
        VernamSession::spec_apply(s, ClientMessage::RequestKey { chunk_count: n })
            == VernamSession::spec_apply(
            s,
            ClientMessage::RequestKey { chunk_count: STREAM_CHUNK_CEILING },
        ),
        VernamSession::spec_apply_out(s, ClientMessage::RequestKey { chunk_count: n })
            == VernamSession::spec_apply_out(
            s,
            ClientMessage::RequestKey { chunk_count: STREAM_CHUNK_CEILING },
        ),
{
}

/// Suspension and resumption preserve the session's identity: the
/// rehydrated session carries the same id, role and chunk counter, and
/// stands ready for further requests.
pub proof fn lemma_suspend_resume_identity(s: VernamSession)
    ensures
        VernamSession::spec_resume(VernamSession::spec_attachment(s)).session_id == s.session_id,
        VernamSession::spec_resume(VernamSession::spec_attachment(s)).role == s.role,
        VernamSession::spec_resume(VernamSession::spec_attachment(s)).chunks_generated
            == s.chunks_generated,
        VernamSession::spec_resume(VernamSession::spec_attachment(s)).phase is Idle,
{
}

/// `end_session` always closes the session, whatever was in flight, and
/// a closed session absorbs every further message without output, so no
/// further chunk generation ever occurs.
pub proof fn lemma_end_session_halts(s: VernamSession, m: ClientMessage)
    ensures
        VernamSession::spec_apply(s, ClientMessage::EndSession).phase is Closed,
        s.phase is Closed ==> VernamSession::spec_apply(s, m) == s,
        s.phase is Closed ==> VernamSession::spec_apply_out(s, m).len() == 0,
        !(VernamSession::spec_apply(s, m).phase is Generating) || !(s.phase is Closed),
{
}

} // verus!
