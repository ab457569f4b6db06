//! The witness protocol engine.
//!
//! The engine decides; the host acts. Each step takes the reply to the last
//! action and answers with the next one, so that every exchange with the
//! guest is a single call made by the host, and no two are ever in flight.
//! What the engine does is stated over [`EngineState`], a model of the
//! engine in which big integers are plain integers.

use crate::address::{fnv, signal_address};
use crate::bignum::{big_clone, big_from_u64, int_of};
use crate::error::WitnessError;
use crate::guest::{Action, Reply};
use crate::limbs::{
    decode_limbs, encode_limbs, from_array32, lemma_decode_bound, lemma_encode_len,
    lemma_limb_bound_step, limb_bound, to_array32, wire_order, wire_words,
};
use num_bigint::BigInt;
use vstd::prelude::*;

verus! {

/// How far a computation has come.
#[derive(Clone, Copy, Debug, PartialEq, Eq, Structural)]
pub enum Phase {
    /// No guest execution context exists yet.
    Unloaded,
    /// A fresh context exists; the field is being asked for.
    Initialized,
    /// The limb width and the prime are known; inputs are being loaded.
    PrimeDiscovered,
    /// Every input value is with the guest.
    InputsLoaded,
    /// The guest has said how large the witness is; it is being read.
    Executed,
    /// The witness is complete.
    Extracted,
    /// The computation was aborted, for the reason given.
    Failed(WitnessError),
}

/// One input value on its way to the guest: the address of its signal, its
/// position within the signal, and the value.
pub struct Transfer {
    pub msb: u32,
    pub lsb: u32,
    pub pos: u32,
    pub value: BigInt,
}

/// A [`Transfer`] with its value as a plain integer.
pub ghost struct TransferView {
    pub msb: u32,
    pub lsb: u32,
    pub pos: u32,
    pub value: int,
}

impl View for Transfer {
    type V = TransferView;

    open spec fn view(&self) -> TransferView {
        TransferView { msb: self.msb, lsb: self.lsb, pos: self.pos, value: int_of(&self.value) }
    }
}

/// The transfers that one signal gives rise to: one per value, in order,
/// each under the signal's address and its own position.
pub open spec fn signal_transfers(name: Seq<char>, values: Seq<int>) -> Seq<TransferView> {
    Seq::new(
        values.len(),
        |i: int|
            TransferView {
                msb: signal_address(name).0,
                lsb: signal_address(name).1,
                pos: i as u32,
                value: values[i],
            },
    )
}

/// The transfers of an input assignment: those of its signals, one signal
/// after the other, in the order given.
pub open spec fn schedule(inputs: Seq<(Seq<char>, Seq<int>)>) -> Seq<TransferView>
    decreases inputs.len(),
{
    if inputs.len() == 0 {
        Seq::empty()
    } else {
        schedule(inputs.drop_last()) + signal_transfers(inputs.last().0, inputs.last().1)
    }
}

/// An input assignment as names and plain integers.
pub open spec fn assignment_view(inputs: Seq<(String, Vec<BigInt>)>) -> Seq<(Seq<char>, Seq<int>)> {
    inputs.map_values(|e: (String, Vec<BigInt>)| (e.0@, e.1@.map_values(|b: BigInt| int_of(&b))))
}

/// The engine as a mathematical value.
#[verifier::ext_equal]
pub ghost struct EngineState {
    pub phase: Phase,
    /// The action that the host was last asked for, and whose reply the next
    /// step takes.
    pub pending: Action,
    /// Whether the computation ends once the prime is known.
    pub discover_only: bool,
    pub sanity_check: bool,
    pub transfers: Seq<TransferView>,
    /// How many transfers the guest has accepted.
    pub cursor: nat,
    /// The number of 32-bit words per field element, as the guest gave it.
    pub n32: u32,
    pub prime: int,
    /// The image of the transfer region: the words read so far of the value
    /// that is being read, or the words of the value that is being written.
    pub words: Seq<u32>,
    /// The number of witness slots, as the guest gave it.
    pub witness_size: u32,
    pub witness: Seq<int>,
}

impl EngineState {
    /// The state in which every computation starts: nothing known, and the
    /// host asked to load the module.
    pub open spec fn initial(
        transfers: Seq<TransferView>,
        sanity_check: bool,
        discover_only: bool,
    ) -> EngineState {
        EngineState {
            phase: Phase::Unloaded,
            pending: Action::Load,
            discover_only,
            sanity_check,
            transfers,
            cursor: 0,
            n32: 0,
            prime: 0,
            words: Seq::empty(),
            witness_size: 0,
            witness: Seq::empty(),
        }
    }

    /// The transfer that is being written.
    pub open spec fn current(self) -> TransferView {
        self.transfers[self.cursor as int]
    }

    /// Whether the value of the transfer being written has `n32` limbs.
    pub open spec fn current_fits(self) -> bool {
        0 <= self.current().value < limb_bound(self.n32 as nat)
    }

    /// The words of the transfer being written, in the order of the region.
    pub open spec fn current_words(self) -> Seq<u32> {
        wire_words(encode_limbs(self.current().value as nat, self.n32 as nat))
    }

    /// The computation aborted for the reason `e`: nothing of the witness is
    /// kept.
    pub open spec fn failed(self, e: WitnessError) -> EngineState {
        EngineState {
            phase: Phase::Failed(e),
            pending: Action::Finish,
            words: Seq::empty(),
            witness: Seq::empty(),
            ..self
        }
    }

    /// Go on extracting: ask for the next witness slot, or end with the
    /// witness complete.
    pub open spec fn extract_next(self) -> EngineState {
        if self.witness.len() < self.witness_size {
            EngineState { pending: Action::GetWitness { index: self.witness.len() as u32 }, ..self }
        } else {
            EngineState { phase: Phase::Extracted, pending: Action::Finish, ..self }
        }
    }

    /// A value has been read in full. While the field is being discovered
    /// it is the prime; later it is the next witness value.
    pub open spec fn value_read(self, v: int) -> EngineState {
        if self.phase == Phase::Initialized {
            EngineState {
                phase: Phase::PrimeDiscovered,
                pending: if self.discover_only {
                    Action::Finish
                } else {
                    Action::Init { sanity_check: self.sanity_check }
                },
                prime: v,
                words: Seq::empty(),
                ..self
            }
        } else {
            EngineState { witness: self.witness.push(v), words: Seq::empty(), ..self }.extract_next()
        }
    }

    /// Go on reading a value: ask for the next word of the region, or, with
    /// all `n32` words read, decode them.
    pub open spec fn read_next(self) -> EngineState {
        if self.words.len() < self.n32 {
            EngineState {
                pending: Action::ReadSharedRwMemory { index: self.words.len() as u32 },
                ..self
            }
        } else {
            self.value_read(decode_limbs(wire_words(self.words)) as int)
        }
    }

    /// Go on writing a value: store the word at `index`, or, with all `n32`
    /// words stored, tell the guest which signal they are for.
    pub open spec fn write_next(self, index: u32) -> EngineState {
        if index < self.n32 {
            EngineState {
                pending: Action::WriteSharedRwMemory {
                    index,
                    value: self.words[index as int],
                },
                ..self
            }
        } else {
            EngineState {
                pending: Action::SetInputSignal {
                    msb: self.current().msb,
                    lsb: self.current().lsb,
                    pos: self.current().pos,
                },
                ..self
            }
        }
    }

    /// Go on loading inputs: encode the next value and begin to write it, or
    /// abort if it cannot be encoded, or, with no value left, ask for the
    /// size of the witness.
    pub open spec fn load_next(self) -> EngineState {
        if self.cursor < self.transfers.len() {
            if self.current_fits() {
                EngineState { words: self.current_words(), ..self }.write_next(0)
            } else {
                self.failed(WitnessError::NegativeInput)
            }
        } else {
            EngineState {
                phase: Phase::InputsLoaded,
                pending: Action::GetWitnessSize,
                words: Seq::empty(),
                ..self
            }
        }
    }

    /// The state after the reply to the pending action.
    ///
    /// A computation that has ended stays as it is. A failed action aborts
    /// the computation: with the reason that the host gives or, where no
    /// guest could be loaded, as a module load failure.
    pub open spec fn advance(self, reply: Reply) -> EngineState {
        if self.pending is Finish {
            self
        } else {
            match reply {
                Err(e) => self.failed(
                    if self.pending is Load {
                        WitnessError::ModuleLoad
                    } else {
                        e
                    },
                ),
                Ok(v) => match self.pending {
                    Action::Load => EngineState {
                        phase: Phase::Initialized,
                        pending: Action::GetFieldNumLen32,
                        ..self
                    },
                    Action::GetFieldNumLen32 => EngineState {
                        n32: v,
                        pending: Action::GetRawPrime,
                        ..self
                    },
                    Action::GetRawPrime => EngineState { words: Seq::empty(), ..self }.read_next(),
                    Action::ReadSharedRwMemory { .. } => EngineState {
                        words: self.words.push(v),
                        ..self
                    }.read_next(),
                    Action::Init { .. } => self.load_next(),
                    Action::WriteSharedRwMemory { index, .. } => self.write_next((index + 1) as u32),
                    Action::SetInputSignal { .. } => EngineState {
                        cursor: self.cursor + 1,
                        ..self
                    }.load_next(),
                    Action::GetWitnessSize => EngineState {
                        phase: Phase::Executed,
                        witness_size: v,
                        ..self
                    }.extract_next(),
                    Action::GetWitness { .. } => EngineState {
                        words: Seq::empty(),
                        ..self
                    }.read_next(),
                    Action::Finish => self,
                },
            }
        }
    }

    /// The state after a series of replies, one step for each.
    pub open spec fn run(self, replies: Seq<Reply>) -> EngineState
        decreases replies.len(),
    {
        if replies.len() == 0 {
            self
        } else {
            self.run(replies.drop_last()).advance(replies.last())
        }
    }

    /// Whether every input value is with the guest.
    pub open spec fn inputs_loaded(self) -> bool {
        self.cursor == self.transfers.len()
    }

    /// Whether the pending action reads the witness.
    pub open spec fn extracting(self) -> bool {
        self.pending is GetWitness || (self.pending is ReadSharedRwMemory && self.phase
            == Phase::Executed)
    }

    /// How many parts of the protocol lie ahead, the present one counted.
    pub open spec fn stage(self) -> nat {
        match self.pending {
            Action::Load => 8,
            Action::GetFieldNumLen32 => 7,
            Action::GetRawPrime => 6,
            Action::ReadSharedRwMemory { .. } => if self.phase == Phase::Executed {
                1
            } else {
                5
            },
            Action::Init { .. } => 4,
            Action::WriteSharedRwMemory { .. } => 3,
            Action::SetInputSignal { .. } => 3,
            Action::GetWitnessSize => 2,
            Action::GetWitness { .. } => 1,
            Action::Finish => 0,
        }
    }

    /// How many values are still to be handed over, or to be fetched, in the
    /// present part.
    pub open spec fn values_left(self) -> nat {
        match self.pending {
            Action::WriteSharedRwMemory { .. } => (self.transfers.len() - self.cursor) as nat,
            Action::SetInputSignal { .. } => (self.transfers.len() - self.cursor) as nat,
            Action::GetWitness { .. } => (self.witness_size - self.witness.len()) as nat,
            Action::ReadSharedRwMemory { .. } => (self.witness_size - self.witness.len()) as nat,
            _ => 0,
        }
    }

    /// How many calls the present value still takes.
    pub open spec fn calls_left(self) -> nat {
        match self.pending {
            Action::ReadSharedRwMemory { index } => (self.n32 - index) as nat,
            Action::WriteSharedRwMemory { index, .. } => (self.n32 - index + 1) as nat,
            Action::GetWitness { .. } => (self.n32 + 1) as nat,
            _ => 0,
        }
    }

    /// Whether `self` is nearer to the end of the computation than `other`:
    /// in a later part, or in the same part with fewer values left, or at
    /// the same value with fewer calls left.
    pub open spec fn nearer_than(self, other: EngineState) -> bool {
        ||| self.stage() < other.stage()
        ||| self.stage() == other.stage() && self.values_left() < other.values_left()
        ||| self.stage() == other.stage() && self.values_left() == other.values_left()
            && self.calls_left() < other.calls_left()
    }

    /// What holds of the engine at every moment: the pending action fits the
    /// phase, and the counters fit both.
    pub open spec fn wf(self) -> bool {
        &&& self.cursor <= self.transfers.len()
        &&& self.witness.len() <= self.witness_size
        &&& self.discover_only ==> self.phase == Phase::Unloaded || self.phase
            == Phase::Initialized || self.phase == Phase::PrimeDiscovered || self.phase is Failed
        &&& 0 <= self.prime < limb_bound(self.n32 as nat)
        &&& forall|i: int|
            0 <= i < self.witness.len() ==> 0 <= #[trigger] self.witness[i] < limb_bound(
                self.n32 as nat,
            )
        &&& match self.pending {
            Action::Load => self.phase == Phase::Unloaded && self.cursor == 0 && self.prime == 0
                && self.witness.len() == 0,
            Action::GetFieldNumLen32 => self.phase == Phase::Initialized && self.cursor == 0
                && self.prime == 0 && self.witness.len() == 0,
            Action::GetRawPrime => self.phase == Phase::Initialized && self.cursor == 0
                && self.witness.len() == 0,
            Action::ReadSharedRwMemory { index } => {
                &&& index == self.words.len()
                &&& index < self.n32
                &&& {
                    ||| self.phase == Phase::Initialized && self.cursor == 0 && self.witness.len()
                        == 0
                    ||| self.phase == Phase::Executed && self.inputs_loaded() && self.witness.len()
                        < self.witness_size
                }
            },
            Action::Init { sanity_check } => self.phase == Phase::PrimeDiscovered && sanity_check
                == self.sanity_check && !self.discover_only && self.cursor == 0
                && self.witness.len() == 0,
            Action::WriteSharedRwMemory { index, value } => {
                &&& self.phase == Phase::PrimeDiscovered
                &&& !self.discover_only
                &&& self.cursor < self.transfers.len()
                &&& self.current_fits()
                &&& self.words == self.current_words()
                &&& index < self.n32
                &&& value == self.words[index as int]
                &&& self.witness.len() == 0
            },
            Action::SetInputSignal { msb, lsb, pos } => {
                &&& self.phase == Phase::PrimeDiscovered
                &&& !self.discover_only
                &&& self.cursor < self.transfers.len()
                &&& self.current_fits()
                &&& self.words == self.current_words()
                &&& msb == self.current().msb
                &&& lsb == self.current().lsb
                &&& pos == self.current().pos
                &&& self.witness.len() == 0
            },
            Action::GetWitnessSize => self.phase == Phase::InputsLoaded && self.inputs_loaded()
                && self.witness.len() == 0,
            Action::GetWitness { index } => self.phase == Phase::Executed && self.inputs_loaded()
                && index == self.witness.len() && index < self.witness_size,
            Action::Finish => match self.phase {
                Phase::Extracted => self.inputs_loaded() && self.witness.len()
                    == self.witness_size,
                Phase::Failed(_) => self.witness.len() == 0,
                Phase::PrimeDiscovered => self.discover_only,
                _ => false,
            },
        }
    }
}

/// Whether `replies` is what `host` gave the engine, from the state `start`
/// on: each reply answers the action that was pending when it came, and none
/// came after the computation had ended.
pub open spec fn answered<H: Fn(Action) -> Reply>(
    host: &H,
    start: EngineState,
    replies: Seq<Reply>,
) -> bool {
    forall|k: int|
        0 <= k < replies.len() ==> {
            let before = #[trigger] start.run(replies.take(k));
            !(before.pending is Finish) && call_ensures(host, (before.pending,), replies[k])
        }
}

/// The transfers of an engine as mathematical values.
pub open spec fn transfers_view(transfers: Seq<Transfer>) -> Seq<TransferView> {
    transfers.map_values(|t: Transfer| t@)
}

/// Witness values as plain integers.
pub open spec fn witness_view(witness: Seq<BigInt>) -> Seq<int> {
    witness.map_values(|b: BigInt| int_of(&b))
}

/// The engine of one witness computation.
///
/// An engine is made for one computation and serves no other: it starts with
/// the request to load a fresh guest, and nothing that a guest holds
/// outlives it.
pub struct WitnessEngine {
    phase: Phase,
    pending: Action,
    discover_only: bool,
    sanity_check: bool,
    transfers: Vec<Transfer>,
    cursor: usize,
    n32: u32,
    prime: BigInt,
    words: Vec<u32>,
    witness_size: u32,
    witness: Vec<BigInt>,
}

impl View for WitnessEngine {
    type V = EngineState;

    closed spec fn view(&self) -> EngineState {
        EngineState {
            phase: self.phase,
            pending: self.pending,
            discover_only: self.discover_only,
            sanity_check: self.sanity_check,
            transfers: transfers_view(self.transfers@),
            cursor: self.cursor as nat,
            n32: self.n32,
            prime: int_of(&self.prime),
            words: self.words@,
            witness_size: self.witness_size,
            witness: witness_view(self.witness@),
        }
    }
}

impl WitnessEngine {
    /// An engine that computes the witness for the given inputs: values are
    /// handed to the guest signal by signal and, within a signal, position by
    /// position.
    ///
    /// A signal may have at most `2^32` values: positions are 32-bit words.
    pub fn new(inputs: Vec<(String, Vec<BigInt>)>, sanity_check: bool) -> (engine: WitnessEngine)
        requires
            forall|k: int| 0 <= k < inputs@.len() ==> (#[trigger] inputs@[k]).1@.len() <= 0x1_0000_0000,
        ensures
            engine@ == EngineState::initial(
                schedule(assignment_view(inputs@)),
                sanity_check,
                false,
            ),
            engine@.wf(),
    {
        let ghost assignment = assignment_view(inputs@);
        let mut transfers: Vec<Transfer> = Vec::new();
        let mut k: usize = 0;
        assert(transfers_view(transfers@) =~= schedule(assignment.take(0)));
        while k < inputs.len()
            invariant
                k <= inputs.len(),
                assignment == assignment_view(inputs@),
                forall|k: int|
                    0 <= k < inputs@.len() ==> (#[trigger] inputs@[k]).1@.len() <= 0x1_0000_0000,
                transfers_view(transfers@) == schedule(assignment.take(k as int)),
            decreases inputs.len() - k,
        {
            let (msb, lsb) = fnv(inputs[k].0.as_str());
            let values = &inputs[k].1;
            let ghost name = assignment[k as int].0;
            let ghost ints = assignment[k as int].1;
            let ghost before = transfers_view(transfers@);
            let mut i: usize = 0;
            assert(transfers_view(transfers@) =~= before + signal_transfers(name, ints).take(0));
            while i < values.len()
                invariant
                    i <= values.len(),
                    values.len() <= 0x1_0000_0000,
                    ints == witness_view(values@),
                    (msb, lsb) == signal_address(name),
                    transfers_view(transfers@) == before + signal_transfers(name, ints).take(
                        i as int,
                    ),
                decreases values.len() - i,
            {
                let value = big_clone(&values[i]);
                let ghost earlier = transfers@;
                let transfer = Transfer { msb, lsb, pos: i as u32, value };
                let ghost added = transfer@;
                transfers.push(transfer);
                proof {
                    let all = signal_transfers(name, ints);
                    assert(ints[i as int] == int_of(&values@[i as int]));
                    assert(all[i as int] == added);
                    assert(all.take(i + 1) =~= all.take(i as int).push(added));
                    assert(transfers_view(transfers@) =~= transfers_view(earlier).push(added));
                }
                i += 1;
            }
            proof {
                let next = assignment.take(k + 1);
                assert(next.drop_last() =~= assignment.take(k as int));
                assert(next.last() == assignment[k as int]);
                assert(signal_transfers(name, ints).take(i as int) =~= signal_transfers(name, ints));
            }
            k += 1;
        }
        proof {
            assert(assignment.take(k as int) =~= assignment);
            lemma_initial_wf(schedule(assignment), sanity_check, false);
        }
        let engine = WitnessEngine {
            phase: Phase::Unloaded,
            pending: Action::Load,
            discover_only: false,
            sanity_check,
            transfers,
            cursor: 0,
            n32: 0,
            prime: big_from_u64(0),
            words: Vec::new(),
            witness_size: 0,
            witness: Vec::new(),
        };
        assert(engine@ =~= EngineState::initial(schedule(assignment), sanity_check, false));
        engine
    }

    /// An engine that only discovers the field: it loads a guest, asks for
    /// the limb width and the prime, and ends.
    pub fn discovery() -> (engine: WitnessEngine)
        ensures
            engine@ == EngineState::initial(Seq::empty(), false, true),
            engine@.wf(),
    {
        let engine = WitnessEngine {
            phase: Phase::Unloaded,
            pending: Action::Load,
            discover_only: true,
            sanity_check: false,
            transfers: Vec::new(),
            cursor: 0,
            n32: 0,
            prime: big_from_u64(0),
            words: Vec::new(),
            witness_size: 0,
            witness: Vec::new(),
        };
        proof {
            lemma_initial_wf(Seq::empty(), false, true);
        }
        assert(engine@ =~= EngineState::initial(Seq::empty(), false, true));
        engine
    }

    /// The phase that the computation is in.
    pub fn phase(&self) -> (phase: Phase)
        ensures
            phase == self@.phase,
    {
        self.phase
    }

    /// The action that the host is asked for. Of a new engine this is the
    /// first action; later it is what the last step returned.
    pub fn pending(&self) -> (action: Action)
        ensures
            action == self@.pending,
    {
        self.pending
    }

    /// The number of 32-bit words of a field element, once the guest has
    /// given it; zero before.
    pub fn n32(&self) -> (n32: u32)
        ensures
            n32 == self@.n32,
    {
        self.n32
    }

    /// The prime of the field, once it has been read; zero before.
    pub fn prime(&self) -> (prime: &BigInt)
        ensures
            int_of(prime) == self@.prime,
    {
        &self.prime
    }

    /// The witness, if the computation has produced it. Before the last
    /// slot is read, and after a failure, there is none.
    pub fn witness(&self) -> (witness: Option<&Vec<BigInt>>)
        ensures
            match witness {
                Some(w) => self@.phase == Phase::Extracted && witness_view(w@) == self@.witness
                    && (self@.wf() ==> w@.len() == self@.witness_size),
                None => self@.phase != Phase::Extracted,
            },
    {
        match self.phase {
            Phase::Extracted => Some(&self.witness),
            _ => None,
        }
    }

    /// The reason for which the computation was aborted, if it was.
    pub fn failure(&self) -> (failure: Option<WitnessError>)
        ensures
            match failure {
                Some(e) => self@.phase == Phase::Failed(e),
                None => !(self@.phase is Failed),
            },
    {
        match self.phase {
            Phase::Failed(e) => Some(e),
            _ => None,
        }
    }

    /// Runs the computation to its end: has `host` perform the pending
    /// action, takes the reply, and so on until nothing is left to ask.
    ///
    /// The host is asked for exactly the actions that the protocol
    /// prescribes, one at a time and in order, and the engine ends in the
    /// state that the host's replies lead to.
    pub fn run<H: Fn(Action) -> Reply>(&mut self, host: &H)
        requires
            old(self)@.wf(),
            forall|action: Action| call_requires(host, (action,)),
        ensures
            final(self)@.wf(),
            final(self)@.pending is Finish,
            exists|replies: Seq<Reply>|
                final(self)@ == old(self)@.run(replies) && #[trigger] answered(
                    host,
                    old(self)@,
                    replies,
                ),
    {
        let ghost start = self@;
        let ghost mut replies: Seq<Reply> = Seq::empty();
        loop
            invariant
                self@.wf(),
                self@ == start.run(replies),
                answered(host, start, replies),
                forall|action: Action| call_requires(host, (action,)),
            ensures
                self@.pending is Finish,
            decreases self@.stage(), self@.values_left(), self@.calls_left(),
        {
            match self.pending {
                Action::Finish => {
                    break ;
                },
                action => {
                    let reply = host(action);
                    proof {
                        let longer = replies.push(reply);
                        lemma_advance_progress(self@, reply);
                        assert(longer.drop_last() =~= replies);
                        assert forall|k: int| 0 <= k < longer.len() implies {
                            let before = #[trigger] start.run(longer.take(k));
                            !(before.pending is Finish) && call_ensures(
                                host,
                                (before.pending,),
                                longer[k],
                            )
                        } by {
                            if k < replies.len() {
                                assert(longer.take(k) =~= replies.take(k));
                            } else {
                                assert(longer.take(k) =~= replies);
                            }
                        }
                        replies = longer;
                    }
                    self.step(reply);
                },
            }
        }
    }

    /// Ends the computation and hands out what it produced: the witness, or
    /// the reason for which there is none.
    pub fn into_witness(self) -> (r: Result<Vec<BigInt>, WitnessError>)
        requires
            self@.wf(),
            self@.pending is Finish,
            !self@.discover_only,
        ensures
            match r {
                Ok(w) => self@.phase == Phase::Extracted && witness_view(w@) == self@.witness
                    && w@.len() == self@.witness_size,
                Err(e) => self@.phase == Phase::Failed(e),
            },
    {
        match self.phase {
            Phase::Failed(e) => Err(e),
            _ => Ok(self.witness),
        }
    }

    fn fail(&mut self, e: WitnessError)
        ensures
            final(self)@ == old(self)@.failed(e),
    {
        self.phase = Phase::Failed(e);
        self.pending = Action::Finish;
        self.words = Vec::new();
        self.witness = Vec::new();
        assert(self@ =~= old(self)@.failed(e));
    }

    fn extract_next(&mut self)
        ensures
            final(self)@ == old(self)@.extract_next(),
    {
        if self.witness.len() < self.witness_size as usize {
            self.pending = Action::GetWitness { index: self.witness.len() as u32 };
        } else {
            self.phase = Phase::Extracted;
            self.pending = Action::Finish;
        }
        assert(self@ =~= old(self)@.extract_next());
    }

    fn value_read(&mut self, v: BigInt)
        ensures
            final(self)@ == old(self)@.value_read(int_of(&v)),
    {
        match self.phase {
            Phase::Initialized => {
                self.phase = Phase::PrimeDiscovered;
                self.pending = if self.discover_only {
                    Action::Finish
                } else {
                    Action::Init { sanity_check: self.sanity_check }
                };
                self.prime = v;
                self.words = Vec::new();
                assert(self@ =~= old(self)@.value_read(int_of(&v)));
            },
            _ => {
                self.witness.push(v);
                self.words = Vec::new();
                let ghost pushed = self@;
                assert(pushed =~= EngineState {
                    witness: old(self)@.witness.push(int_of(&v)),
                    words: Seq::empty(),
                    ..old(self)@
                });
                self.extract_next();
            },
        }
    }

    fn read_next(&mut self)
        ensures
            final(self)@ == old(self)@.read_next(),
    {
        if self.words.len() < self.n32 as usize {
            self.pending = Action::ReadSharedRwMemory { index: self.words.len() as u32 };
            assert(self@ =~= old(self)@.read_next());
        } else {
            let limbs = wire_order(&self.words);
            let v = from_array32(limbs);
            self.value_read(v);
        }
    }

    fn write_next(&mut self, index: u32)
        requires
            old(self)@.words.len() == old(self)@.n32,
            old(self)@.cursor < old(self)@.transfers.len(),
        ensures
            final(self)@ == old(self)@.write_next(index),
    {
        if index < self.n32 {
            self.pending = Action::WriteSharedRwMemory {
                index,
                value: self.words[index as usize],
            };
        } else {
            let t = &self.transfers[self.cursor];
            self.pending = Action::SetInputSignal { msb: t.msb, lsb: t.lsb, pos: t.pos };
        }
        assert(self@ =~= old(self)@.write_next(index));
    }

    fn load_next(&mut self)
        ensures
            final(self)@ == old(self)@.load_next(),
    {
        if self.cursor < self.transfers.len() {
            match to_array32(&self.transfers[self.cursor].value, self.n32 as usize) {
                Ok(limbs) => {
                    self.words = wire_order(&limbs);
                    proof {
                        lemma_encode_len(self@.current().value as nat, self.n32 as nat);
                    }
                    let ghost ready = self@;
                    assert(ready =~= EngineState {
                        words: old(self)@.current_words(),
                        ..old(self)@
                    });
                    self.write_next(0);
                },
                Err(_) => {
                    self.fail(WitnessError::NegativeInput);
                },
            }
        } else {
            self.phase = Phase::InputsLoaded;
            self.pending = Action::GetWitnessSize;
            self.words = Vec::new();
            assert(self@ =~= old(self)@.load_next());
        }
    }

    /// Takes the reply to the pending action and returns the action to
    /// perform next. The first reply that an engine takes is the one to
    /// [`Action::Load`]; once the engine has returned [`Action::Finish`],
    /// further replies change nothing.
    pub fn step(&mut self, reply: Reply) -> (next: Action)
        requires
            old(self)@.wf(),
        ensures
            final(self)@ == old(self)@.advance(reply),
            final(self)@.wf(),
            next == final(self)@.pending,
    {
        proof {
            lemma_advance_wf(self@, reply);
        }
        match self.pending {
            Action::Finish => {},
            Action::Load => match reply {
                Ok(_) => {
                    self.phase = Phase::Initialized;
                    self.pending = Action::GetFieldNumLen32;
                    assert(self@ =~= old(self)@.advance(reply));
                },
                Err(_) => {
                    self.fail(WitnessError::ModuleLoad);
                },
            },
            pending => match reply {
                Err(e) => {
                    self.fail(e);
                },
                Ok(v) => match pending {
                    Action::GetFieldNumLen32 => {
                        self.n32 = v;
                        self.pending = Action::GetRawPrime;
                        assert(self@ =~= old(self)@.advance(reply));
                    },
                    Action::GetRawPrime => {
                        self.words = Vec::new();
                        let ghost cleared = self@;
                        assert(cleared =~= EngineState { words: Seq::empty(), ..old(self)@ });
                        self.read_next();
                    },
                    Action::ReadSharedRwMemory { .. } => {
                        self.words.push(v);
                        let ghost pushed = self@;
                        assert(pushed =~= EngineState {
                            words: old(self)@.words.push(v),
                            ..old(self)@
                        });
                        self.read_next();
                    },
                    Action::Init { .. } => {
                        self.load_next();
                    },
                    Action::WriteSharedRwMemory { index, .. } => {
                        proof {
                            lemma_encode_len(self@.current().value as nat, self.n32 as nat);
                        }
                        self.write_next(index + 1);
                    },
                    Action::SetInputSignal { .. } => {
                        assert(self@.transfers.len() == self.transfers.len());
                        self.cursor = self.cursor + 1;
                        let ghost moved = self@;
                        assert(moved =~= EngineState {
                            cursor: old(self)@.cursor + 1,
                            ..old(self)@
                        });
                        self.load_next();
                    },
                    Action::GetWitnessSize => {
                        self.phase = Phase::Executed;
                        self.witness_size = v;
                        let ghost sized = self@;
                        assert(sized =~= EngineState {
                            phase: Phase::Executed,
                            witness_size: v,
                            ..old(self)@
                        });
                        self.extract_next();
                    },
                    Action::GetWitness { .. } => {
                        self.words = Vec::new();
                        let ghost cleared = self@;
                        assert(cleared =~= EngineState { words: Seq::empty(), ..old(self)@ });
                        self.read_next();
                    },
                    _ => {},
                },
            },
        }
        self.pending
    }
}

/// A computation starts well formed.
pub proof fn lemma_initial_wf(
    transfers: Seq<TransferView>,
    sanity_check: bool,
    discover_only: bool,
)
    ensures
        EngineState::initial(transfers, sanity_check, discover_only).wf(),
{
    lemma_limb_bound_step(0);
}

/// A step keeps the engine well formed, whatever the reply.
pub proof fn lemma_advance_wf(s: EngineState, reply: Reply)
    requires
        s.wf(),
    ensures
        s.advance(reply).wf(),
{
    let t = s.advance(reply);
    lemma_limb_bound_step(s.n32 as nat);
    if s.pending is Finish {
    } else if reply is Err {
    } else {
        let v = reply->Ok_0;
        match s.pending {
            Action::GetFieldNumLen32 => {
                lemma_limb_bound_step(v as nat);
            },
            Action::GetRawPrime => {
                let r = EngineState { words: Seq::empty(), ..s };
                lemma_decode_bound(wire_words(r.words));
            },
            Action::ReadSharedRwMemory { .. } => {
                let r = EngineState { words: s.words.push(v), ..s };
                lemma_decode_bound(wire_words(r.words));
            },
            Action::GetWitness { .. } => {
                let r = EngineState { words: Seq::empty(), ..s };
                lemma_decode_bound(wire_words(r.words));
            },
            Action::Init { .. } => {
                if s.cursor < s.transfers.len() {
                    lemma_encode_len(s.current().value as nat, s.n32 as nat);
                }
            },
            Action::SetInputSignal { .. } => {
                let r = EngineState { cursor: s.cursor + 1, ..s };
                if r.cursor < r.transfers.len() {
                    lemma_encode_len(r.current().value as nat, r.n32 as nat);
                }
            },
            _ => {},
        }
    }
}

/// Every step brings the computation nearer to its end, whatever the
/// reply: no guest can keep the engine asking forever.
pub proof fn lemma_advance_progress(s: EngineState, reply: Reply)
    requires
        s.wf(),
        !(s.pending is Finish),
    ensures
        s.advance(reply).nearer_than(s),
{
    if reply is Ok {
        match s.pending {
            Action::Init { .. } => {
                if s.cursor < s.transfers.len() {
                    lemma_encode_len(s.current().value as nat, s.n32 as nat);
                }
            },
            Action::SetInputSignal { .. } => {
                let r = EngineState { cursor: s.cursor + 1, ..s };
                if r.cursor < r.transfers.len() {
                    lemma_encode_len(r.current().value as nat, r.n32 as nat);
                }
            },
            _ => {},
        }
    }
}

/// Every state that a computation reaches is well formed, whatever the
/// guest replied on the way.
pub proof fn lemma_run_wf(s: EngineState, replies: Seq<Reply>)
    requires
        s.wf(),
    ensures
        s.run(replies).wf(),
    decreases replies.len(),
{
    if replies.len() > 0 {
        lemma_run_wf(s, replies.drop_last());
        lemma_advance_wf(s.run(replies.drop_last()), replies.last());
    }
}

/// The witness is as long as the guest said, and it is read only after the
/// inputs. In every state that a computation reaches, whatever the guest
/// replied on the way: the witness has no more values than the guest
/// reported slots; once it is extracted it has exactly as many; while it is
/// being read, and after, every input value is with the guest; and an
/// aborted computation holds no witness value at all.
pub proof fn lemma_witness_length(
    transfers: Seq<TransferView>,
    sanity_check: bool,
    discover_only: bool,
    replies: Seq<Reply>,
)
    ensures
        ({
            let s = EngineState::initial(transfers, sanity_check, discover_only).run(replies);
            &&& s.witness.len() <= s.witness_size
            &&& s.phase == Phase::Extracted ==> s.witness.len() == s.witness_size
            &&& s.extracting() ==> s.inputs_loaded()
            &&& s.phase == Phase::Executed || s.phase == Phase::Extracted ==> s.inputs_loaded()
            &&& s.phase is Failed ==> s.witness.len() == 0
        }),
{
    let init = EngineState::initial(transfers, sanity_check, discover_only);
    lemma_initial_wf(transfers, sanity_check, discover_only);
    lemma_run_wf(init, replies);
}

/// The size of the witness is what the guest replied to `getWitnessSize`,
/// and no other step changes it.
pub proof fn lemma_witness_size_reported(s: EngineState, reply: Reply)
    ensures
        s.pending is GetWitnessSize && reply is Ok ==> s.advance(reply).witness_size
            == reply->Ok_0,
        !(s.pending is GetWitnessSize) ==> s.advance(reply).witness_size == s.witness_size,
{
}

/// The limb width is what the guest replied to `getFieldNumLen32`, and no
/// other step changes it; what the engine was made for is never changed.
pub proof fn lemma_width_reported(s: EngineState, reply: Reply)
    ensures
        s.pending is GetFieldNumLen32 && reply is Ok ==> s.advance(reply).n32 == reply->Ok_0,
        !(s.pending is GetFieldNumLen32) ==> s.advance(reply).n32 == s.n32,
        s.advance(reply).transfers == s.transfers,
        s.advance(reply).sanity_check == s.sanity_check,
        s.advance(reply).discover_only == s.discover_only,
{
}

/// Once the prime has been read, neither it nor the limb width changes any
/// more: the field of a loaded module is discovered once.
pub proof fn lemma_field_is_fixed(s: EngineState, reply: Reply)
    requires
        s.wf(),
        s.phase != Phase::Unloaded,
        s.phase != Phase::Initialized,
    ensures
        s.advance(reply).n32 == s.n32,
        s.advance(reply).prime == s.prime,
{
}

/// Whatever the replies, a computation keeps the inputs it was given.
pub proof fn lemma_run_keeps_inputs(s: EngineState, replies: Seq<Reply>)
    ensures
        s.run(replies).transfers == s.transfers,
        s.run(replies).sanity_check == s.sanity_check,
        s.run(replies).discover_only == s.discover_only,
    decreases replies.len(),
{
    if replies.len() > 0 {
        lemma_run_keeps_inputs(s, replies.drop_last());
        lemma_width_reported(s.run(replies.drop_last()), replies.last());
    }
}

/// What is written is the value, least significant limb first: the word
/// stored at index `j` of the region is limb `n32 - 1 - j` of the encoding
/// of the value in transfer, and the signal named after the last word is
/// the one that the value belongs to.
pub proof fn lemma_written_words(s: EngineState)
    requires
        s.wf(),
    ensures
        s.pending matches Action::WriteSharedRwMemory { index, value } ==> value == encode_limbs(
            s.current().value as nat,
            s.n32 as nat,
        )[s.n32 - 1 - index],
        s.pending matches Action::SetInputSignal { msb, lsb, pos } ==> msb == s.current().msb
            && lsb == s.current().lsb && pos == s.current().pos,
{
    if s.pending is WriteSharedRwMemory {
        lemma_encode_len(s.current().value as nat, s.n32 as nat);
    }
}

/// A failed action ends the computation at once, in whatever phase it
/// occurs, and a computation that has ended takes no further step.
pub proof fn lemma_failure_is_final(s: EngineState, e: WitnessError, later: Reply)
    requires
        !(s.pending is Finish),
    ensures
        s.advance(Err(e)).phase is Failed,
        s.advance(Err(e)).pending is Finish,
        s.advance(Err(e)).witness.len() == 0,
        !(s.pending is Load) ==> s.advance(Err(e)).phase == Phase::Failed(e),
        s.pending is Load ==> s.advance(Err(e)).phase == Phase::Failed(WitnessError::ModuleLoad),
        s.advance(Err(e)).advance(later) == s.advance(Err(e)),
{
}

/// A computation fails for a reason: a step leads into failure only if the
/// reply was a failure, or if the input value that was next to be written is
/// negative or needs more limbs than the field has. So while the host
/// succeeds and the inputs can be encoded, the computation goes on to its
/// witness.
pub proof fn lemma_failure_has_a_cause(s: EngineState, reply: Reply)
    requires
        s.wf(),
        !(s.phase is Failed),
        s.advance(reply).phase is Failed,
    ensures
        reply is Err || (s.advance(reply).phase == Phase::Failed(WitnessError::NegativeInput)
            && exists|i: int|
            0 <= i < s.transfers.len() && !(0 <= (#[trigger] s.transfers[i]).value < limb_bound(
                s.n32 as nat,
            ))),
{
    if reply is Ok {
        match s.pending {
            Action::Init { .. } => {
                assert(!s.current_fits());
                assert(s.transfers[s.cursor as int] == s.current());
            },
            Action::SetInputSignal { .. } => {
                let r = EngineState { cursor: s.cursor + 1, ..s };
                assert(!r.current_fits());
                assert(s.transfers[r.cursor as int] == r.current());
            },
            _ => {},
        }
    }
}

/// The transfers of an assignment, counted: a signal's values follow those
/// of the signals before it, each at its own position and under the
/// signal's address.
pub proof fn lemma_schedule_last(inputs: Seq<(Seq<char>, Seq<int>)>, i: int)
    requires
        inputs.len() > 0,
        0 <= i < inputs.last().1.len(),
    ensures
        schedule(inputs).len() == schedule(inputs.drop_last()).len() + inputs.last().1.len(),
        schedule(inputs)[schedule(inputs.drop_last()).len() + i] == (TransferView {
            msb: signal_address(inputs.last().0).0,
            lsb: signal_address(inputs.last().0).1,
            pos: i as u32,
            value: inputs.last().1[i],
        }),
{
}

} // verus!
