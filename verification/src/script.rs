//! The protocol as a script: the calls that a computation makes of its
//! host, written out in full, and the proof that the engine makes exactly
//! these.

use crate::engine::{
    answered, lemma_initial_wf, lemma_run_keeps_inputs, lemma_run_wf, EngineState, Phase,
    TransferView,
};
use crate::guest::{Action, Reply};
use crate::limbs::{encode_limbs, wire_words};
use vstd::prelude::*;

verus! {

/// Reading one value: the words of the transfer region, from index 0 up.
pub open spec fn read_calls(n32: u32) -> Seq<Action> {
    Seq::new(n32 as nat, |j: int| Action::ReadSharedRwMemory { index: j as u32 })
}

/// Writing one value: word `j` of the region receives limb `n32 - 1 - j` of
/// the value's encoding, from index 0 up.
pub open spec fn write_calls(t: TransferView, n32: u32) -> Seq<Action> {
    Seq::new(
        n32 as nat,
        |j: int|
            Action::WriteSharedRwMemory {
                index: j as u32,
                value: wire_words(encode_limbs(t.value as nat, n32 as nat))[j],
            },
    )
}

/// Handing one value to the guest: it is written, and then the guest is told
/// the signal and the position that it is for.
pub open spec fn transfer_calls(t: TransferView, n32: u32) -> Seq<Action> {
    write_calls(t, n32).push(Action::SetInputSignal { msb: t.msb, lsb: t.lsb, pos: t.pos })
}

/// Handing over the input values, one after the other.
pub open spec fn input_calls(transfers: Seq<TransferView>, n32: u32) -> Seq<Action>
    decreases transfers.len(),
{
    if transfers.len() == 0 {
        Seq::empty()
    } else {
        input_calls(transfers.drop_last(), n32) + transfer_calls(transfers.last(), n32)
    }
}

/// Fetching one witness slot: the guest is asked for it, and it is read.
pub open spec fn slot_calls(index: nat, n32: u32) -> Seq<Action> {
    seq![Action::GetWitness { index: index as u32 }] + read_calls(n32)
}

/// Fetching the first `count` witness slots, in order.
pub open spec fn extraction_calls(count: nat, n32: u32) -> Seq<Action>
    decreases count,
{
    if count == 0 {
        Seq::empty()
    } else {
        extraction_calls((count - 1) as nat, n32) + slot_calls((count - 1) as nat, n32)
    }
}

/// Discovering the field: a guest is loaded and asked for the limb width and
/// for the prime, which is read.
pub open spec fn discovery_calls(n32: u32) -> Seq<Action> {
    seq![Action::Load, Action::GetFieldNumLen32, Action::GetRawPrime] + read_calls(n32)
}

/// All that comes before the witness is asked for: the field is discovered,
/// the guest is prepared, and the input values are handed over.
pub open spec fn loading_calls(
    sanity_check: bool,
    transfers: Seq<TransferView>,
    n32: u32,
) -> Seq<Action> {
    discovery_calls(n32).push(Action::Init { sanity_check }) + input_calls(transfers, n32)
}

/// A computation up to the point where `count` witness slots have been
/// fetched: all of the above, the question for the size of the witness, and
/// the slots.
pub open spec fn script(
    sanity_check: bool,
    transfers: Seq<TransferView>,
    n32: u32,
    count: nat,
) -> Seq<Action> {
    loading_calls(sanity_check, transfers, n32).push(Action::GetWitnessSize) + extraction_calls(
        count,
        n32,
    )
}

/// What the host has been asked for when the engine is in the state `s`, the
/// pending action not counted. (Of a failed computation nothing is said.)
pub open spec fn asked_before(s: EngineState) -> Seq<Action> {
    match s.pending {
        Action::Load => Seq::empty(),
        Action::GetFieldNumLen32 => seq![Action::Load],
        Action::GetRawPrime => seq![Action::Load, Action::GetFieldNumLen32],
        Action::ReadSharedRwMemory { index } => if s.phase == Phase::Executed {
            script(s.sanity_check, s.transfers, s.n32, s.witness.len()) + slot_calls(
                s.witness.len(),
                s.n32,
            ).take(index + 1)
        } else {
            discovery_calls(s.n32).take(3 + index)
        },
        Action::Init { .. } => discovery_calls(s.n32),
        Action::WriteSharedRwMemory { index, .. } => loading_calls(
            s.sanity_check,
            s.transfers.take(s.cursor as int),
            s.n32,
        ) + write_calls(s.current(), s.n32).take(index as int),
        Action::SetInputSignal { .. } => loading_calls(
            s.sanity_check,
            s.transfers.take(s.cursor as int),
            s.n32,
        ) + write_calls(s.current(), s.n32),
        Action::GetWitnessSize => loading_calls(s.sanity_check, s.transfers, s.n32),
        Action::GetWitness { .. } => script(s.sanity_check, s.transfers, s.n32, s.witness.len()),
        Action::Finish => if s.phase == Phase::Extracted {
            script(s.sanity_check, s.transfers, s.n32, s.witness_size as nat)
        } else {
            discovery_calls(s.n32)
        },
    }
}

/// The actions that a computation asked of its host, in order: the action
/// that was pending when each reply came.
pub open spec fn asked(start: EngineState, replies: Seq<Reply>) -> Seq<Action> {
    Seq::new(replies.len(), |k: int| start.run(replies.take(k)).pending)
}

proof fn lemma_input_calls_next(transfers: Seq<TransferView>, cursor: int, n32: u32)
    requires
        0 <= cursor < transfers.len(),
    ensures
        input_calls(transfers.take(cursor + 1), n32) == input_calls(transfers.take(cursor), n32)
            + transfer_calls(transfers[cursor], n32),
{
    let next = transfers.take(cursor + 1);
    assert(next.drop_last() =~= transfers.take(cursor));
    assert(next.last() == transfers[cursor]);
}

proof fn lemma_asked_grows_discovery(s: EngineState, reply: Reply)
    requires
        s.wf(),
        s.phase == Phase::Unloaded || s.phase == Phase::Initialized,
        !(s.advance(reply).phase is Failed),
    ensures
        asked_before(s.advance(reply)) == asked_before(s).push(s.pending),
{
    let t = s.advance(reply);
    let calls = discovery_calls(s.n32);
    match s.pending {
        Action::Load => {
            assert(asked_before(t) =~= asked_before(s).push(s.pending));
        },
        Action::GetFieldNumLen32 => {
            assert(asked_before(t) =~= asked_before(s).push(s.pending));
        },
        Action::GetRawPrime => {
            assert(calls.take(3) =~= asked_before(s).push(s.pending));
            assert(s.n32 == 0 ==> calls =~= calls.take(3));
        },
        Action::ReadSharedRwMemory { index } => {
            assert(calls[3 + index] == s.pending);
            assert(calls.take(3 + index + 1) =~= calls.take(3 + index).push(s.pending));
            assert(index + 1 == s.n32 ==> calls =~= calls.take(3 + index + 1));
        },
        _ => {},
    }
}

proof fn lemma_asked_grows_loading(s: EngineState, reply: Reply)
    requires
        s.wf(),
        s.phase == Phase::PrimeDiscovered,
        !(s.pending is Finish),
        !(s.advance(reply).phase is Failed),
    ensures
        asked_before(s.advance(reply)) == asked_before(s).push(s.pending),
{
    let t = s.advance(reply);
    let n32 = s.n32;
    let prepared = discovery_calls(n32).push(Action::Init { sanity_check: s.sanity_check });
    match s.pending {
        Action::Init { .. } => {
            assert(s.transfers.take(0) =~= Seq::<TransferView>::empty());
            assert(input_calls(s.transfers.take(0), n32) =~= Seq::<Action>::empty());
            if s.cursor < s.transfers.len() {
                assert(write_calls(t.current(), n32).take(0) =~= Seq::<Action>::empty());
                assert(n32 == 0 ==> write_calls(t.current(), n32) =~= Seq::<Action>::empty());
                assert(asked_before(t) =~= prepared);
            } else {
                assert(s.transfers =~= Seq::<TransferView>::empty());
                assert(asked_before(t) =~= prepared);
            }
            assert(asked_before(s).push(s.pending) =~= prepared);
        },
        Action::WriteSharedRwMemory { index, .. } => {
            let writes = write_calls(s.current(), n32);
            assert(writes[index as int] == s.pending);
            assert(writes.take(index + 1) =~= writes.take(index as int).push(s.pending));
            assert(index + 1 == n32 ==> writes =~= writes.take(index + 1));
            let before = loading_calls(s.sanity_check, s.transfers.take(s.cursor as int), n32);
            assert(before + writes.take(index as int).push(s.pending) =~= (before + writes.take(
                index as int,
            )).push(s.pending));
        },
        Action::SetInputSignal { .. } => {
            let cursor = s.cursor as int;
            let done = s.transfers.take(cursor);
            let writes = write_calls(s.current(), n32);
            lemma_input_calls_next(s.transfers, cursor, n32);
            let after = loading_calls(s.sanity_check, s.transfers.take(cursor + 1), n32);
            assert(after =~= (loading_calls(s.sanity_check, done, n32) + writes).push(s.pending));
            if cursor + 1 < s.transfers.len() {
                assert(write_calls(t.current(), n32).take(0) =~= Seq::<Action>::empty());
                assert(n32 == 0 ==> write_calls(t.current(), n32) =~= Seq::<Action>::empty());
                assert(asked_before(t) =~= after);
            } else {
                assert(s.transfers.take(cursor + 1) =~= s.transfers);
                assert(asked_before(t) =~= after);
            }
        },
        _ => {},
    }
}

proof fn lemma_asked_grows_extraction(s: EngineState, reply: Reply)
    requires
        s.wf(),
        s.phase == Phase::InputsLoaded || s.phase == Phase::Executed,
        !(s.advance(reply).phase is Failed),
    ensures
        asked_before(s.advance(reply)) == asked_before(s).push(s.pending),
{
    let t = s.advance(reply);
    let n32 = s.n32;
    let loaded = loading_calls(s.sanity_check, s.transfers, n32).push(Action::GetWitnessSize);
    let fetched = s.witness.len();
    let slots = extraction_calls(fetched, n32);
    let slot = slot_calls(fetched, n32);
    match s.pending {
        Action::GetWitnessSize => {
            assert(extraction_calls(0, n32) =~= Seq::<Action>::empty());
            assert(asked_before(t) =~= loaded);
            assert(asked_before(s).push(s.pending) =~= loaded);
        },
        Action::GetWitness { .. } => {
            assert(slot[0] == s.pending);
            assert(slot.take(1) =~= seq![s.pending]);
            assert((loaded + slots).push(s.pending) =~= loaded + slots + slot.take(1));
            if n32 == 0 {
                assert(slot =~= slot.take(1));
                assert(loaded + (slots + slot) =~= loaded + slots + slot);
                assert(extraction_calls(fetched + 1, n32) == slots + slot);
                assert(asked_before(t) =~= loaded + slots + slot);
            }
        },
        Action::ReadSharedRwMemory { index } => {
            assert(slot[index + 1] == s.pending);
            assert(slot.take(index + 2) =~= slot.take(index + 1).push(s.pending));
            assert((loaded + slots + slot.take(index + 1)).push(s.pending) =~= loaded + slots
                + slot.take(index + 2));
            if index + 1 == n32 {
                assert(slot =~= slot.take(index + 2));
                assert(loaded + (slots + slot) =~= loaded + slots + slot);
                assert(extraction_calls(fetched + 1, n32) == slots + slot);
                assert(asked_before(t) =~= loaded + slots + slot);
            }
        },
        _ => {},
    }
}

/// Each step adds the action that was pending to what the host has been
/// asked for, as long as the computation does not fail.
pub proof fn lemma_asked_grows(s: EngineState, reply: Reply)
    requires
        s.wf(),
        !(s.pending is Finish),
        !(s.advance(reply).phase is Failed),
    ensures
        asked_before(s.advance(reply)) == asked_before(s).push(s.pending),
{
    match s.phase {
        Phase::Unloaded => lemma_asked_grows_discovery(s, reply),
        Phase::Initialized => lemma_asked_grows_discovery(s, reply),
        Phase::PrimeDiscovered => lemma_asked_grows_loading(s, reply),
        Phase::InputsLoaded => lemma_asked_grows_extraction(s, reply),
        Phase::Executed => lemma_asked_grows_extraction(s, reply),
        _ => {},
    }
}

/// Whether the computation went on with every reply but the last: none came
/// after the computation had ended.
pub open spec fn never_idle(start: EngineState, replies: Seq<Reply>) -> bool {
    forall|k: int| 0 <= k < replies.len() ==> !((#[trigger] start.run(replies.take(k))).pending is Finish)
}

/// A host whose replies the engine took one by one was never asked again
/// after the end.
pub proof fn lemma_answered_never_idle<H: Fn(Action) -> Reply>(
    host: &H,
    start: EngineState,
    replies: Seq<Reply>,
)
    requires
        answered(host, start, replies),
    ensures
        never_idle(start, replies),
{
}

/// What a computation has asked of its host is what the state it has reached
/// says, as long as the computation has not failed.
pub proof fn lemma_asked_matches_state(start: EngineState, replies: Seq<Reply>)
    requires
        start.wf(),
        never_idle(start, replies),
        !(start.run(replies).phase is Failed),
    ensures
        asked_before(start.run(replies)) == asked_before(start) + asked(start, replies),
    decreases replies.len(),
{
    if replies.len() == 0 {
        assert(asked_before(start) + asked(start, replies) =~= asked_before(start));
    } else {
        let earlier = replies.drop_last();
        let s = start.run(earlier);
        assert(replies.take(replies.len() - 1) =~= earlier);
        assert(!(s.pending is Finish));
        lemma_run_wf(start, earlier);
        assert forall|k: int| 0 <= k < earlier.len() implies !((#[trigger] start.run(
            earlier.take(k),
        )).pending is Finish) by {
            assert(earlier.take(k) =~= replies.take(k));
        }
        lemma_asked_matches_state(start, earlier);
        lemma_asked_grows(s, replies.last());
        assert forall|k: int| 0 <= k < earlier.len() implies asked(start, replies)[k] == asked(
            start,
            earlier,
        )[k] by {
            assert(earlier.take(k) =~= replies.take(k));
        }
        assert(asked(start, replies) =~= asked(start, earlier).push(s.pending));
        assert(asked_before(start) + asked(start, earlier).push(s.pending) =~= (asked_before(start)
            + asked(start, earlier)).push(s.pending));
    }
}

/// A computation that gives a witness has asked its host for exactly the
/// calls of the protocol, in their order: the field is discovered, the
/// guest is prepared, every input value is written least significant word
/// first and named, the size of the witness is asked for, and that many
/// slots are fetched and read.
pub proof fn lemma_witness_follows_the_script(
    transfers: Seq<TransferView>,
    sanity_check: bool,
    replies: Seq<Reply>,
)
    requires
        never_idle(EngineState::initial(transfers, sanity_check, false), replies),
        EngineState::initial(transfers, sanity_check, false).run(replies).phase
            == Phase::Extracted,
    ensures
        ({
            let start = EngineState::initial(transfers, sanity_check, false);
            let s = start.run(replies);
            asked(start, replies) == script(sanity_check, transfers, s.n32, s.witness_size as nat)
        }),
{
    let start = EngineState::initial(transfers, sanity_check, false);
    lemma_initial_wf(transfers, sanity_check, false);
    lemma_run_wf(start, replies);
    lemma_run_keeps_inputs(start, replies);
    lemma_asked_matches_state(start, replies);
    assert(asked_before(start) + asked(start, replies) =~= asked(start, replies));
}

/// A discovery that succeeds has asked its host for the field and for
/// nothing else.
pub proof fn lemma_discovery_follows_the_script(replies: Seq<Reply>)
    requires
        never_idle(EngineState::initial(Seq::empty(), false, true), replies),
        EngineState::initial(Seq::empty(), false, true).run(replies).phase
            == Phase::PrimeDiscovered,
        EngineState::initial(Seq::empty(), false, true).run(replies).pending is Finish,
    ensures
        ({
            let start = EngineState::initial(Seq::empty(), false, true);
            asked(start, replies) == discovery_calls(start.run(replies).n32)
        }),
{
    let start = EngineState::initial(Seq::empty(), false, true);
    lemma_initial_wf(Seq::empty(), false, true);
    lemma_run_wf(start, replies);
    lemma_asked_matches_state(start, replies);
    assert(asked_before(start) + asked(start, replies) =~= asked(start, replies));
}

} // verus!
