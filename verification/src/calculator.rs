//! The witness calculator of one circuit: the module bytes, and what was
//! learned of the field when the module was first loaded.

use crate::bignum::int_of;
use crate::engine::{
    answered, assignment_view, lemma_run_keeps_inputs, schedule, EngineState, Phase, WitnessEngine,
};
use crate::error::WitnessError;
use crate::field::{
    canonical_representative, field_width_64, lemma_bit_length_bound, limbs64, normalize_witness,
};
use crate::guest::{Action, Reply};
use num_bigint::BigInt;
use vstd::math::abs;
use vstd::prelude::*;

verus! {

/// A circuit's compiled guest module together with the number of 64-bit
/// limbs of its field's prime.
///
/// The calculator holds no guest: every computation is handed a guest that
/// was loaded for it, so that no computation sees what another left behind.
#[derive(Clone, Debug)]
pub struct WitnessCalculator {
    pub data: Vec<u8>,
    pub n64: u32,
}

/// Whether a discovery that `host` answered with `replies` has ended, and
/// `r` is what it gives for the module `data`: the calculator with the width
/// of the prime that was read, or the reason for which the discovery failed.
pub open spec fn discovery_gives<H: Fn(Action) -> Reply>(
    host: &H,
    data: Seq<u8>,
    replies: Seq<Reply>,
    r: Result<WitnessCalculator, WitnessError>,
) -> bool {
    let start = EngineState::initial(Seq::empty(), false, true);
    let s = start.run(replies);
    &&& answered(host, start, replies)
    &&& s.pending is Finish
    &&& match r {
        Ok(c) => s.phase == Phase::PrimeDiscovered && c.data@ == data && c.n64 == limbs64(
            abs(s.prime),
        ),
        Err(e) => s.phase == Phase::Failed(e),
    }
}

/// Whether a computation for the given inputs that `host` answered with
/// `replies` has ended, and `r` is what it gives under the prime `modulus`:
/// the witness that was read, as long as the guest said and each value
/// normalized, or the reason for which the computation failed.
pub open spec fn computation_gives<H: Fn(Action) -> Reply>(
    host: &H,
    inputs: Seq<(Seq<char>, Seq<int>)>,
    sanity_check: bool,
    modulus: int,
    replies: Seq<Reply>,
    r: Result<Vec<BigInt>, WitnessError>,
) -> bool {
    let start = EngineState::initial(schedule(inputs), sanity_check, false);
    let s = start.run(replies);
    &&& answered(host, start, replies)
    &&& s.pending is Finish
    &&& match r {
        Ok(w) => {
            &&& s.phase == Phase::Extracted
            &&& w@.len() == s.witness_size
            &&& w@.len() == s.witness.len()
            &&& forall|i: int|
                0 <= i < w@.len() ==> int_of(&#[trigger] w@[i]) == canonical_representative(
                    s.witness[i],
                    modulus,
                )
        },
        Err(e) => s.phase == Phase::Failed(e),
    }
}

impl WitnessCalculator {
    /// The calculator for the module `data`, from a discovery that was run on
    /// that module: `n64` is the number of 64-bit limbs of the prime that
    /// the discovery read. A discovery that failed gives its failure.
    pub fn from_discovery(data: &Vec<u8>, discovery: &WitnessEngine) -> (r: Result<
        WitnessCalculator,
        WitnessError,
    >)
        requires
            discovery@.wf(),
        ensures
            match r {
                Ok(c) => !(discovery@.phase is Failed) && c.data@ == data@ && c.n64 == limbs64(
                    abs(discovery@.prime),
                ),
                Err(e) => discovery@.phase == Phase::Failed(e),
            },
    {
        match discovery.failure() {
            Some(e) => Err(e),
            None => {
                let n64 = field_width_64(discovery.prime());
                proof {
                    lemma_bit_length_bound(
                        abs(discovery@.prime),
                        32 * (discovery@.n32 as nat),
                    );
                }
                let mut bytes: Vec<u8> = Vec::new();
                let mut i: usize = 0;
                while i < data.len()
                    invariant
                        i <= data.len(),
                        bytes@ == data@.take(i as int),
                    decreases data.len() - i,
                {
                    bytes.push(data[i]);
                    assert(bytes@ =~= data@.take(i + 1));
                    i += 1;
                }
                assert(data@.take(data.len() as int) =~= data@);
                Ok(WitnessCalculator { data: bytes, n64: n64 as u32 })
            },
        }
    }

    /// The calculator for the module `data`, whose field is discovered
    /// through `host`, which performs each action on a guest loaded from that
    /// module: the guest is asked for the limb width and for the prime, and
    /// `n64` is the number of 64-bit limbs of the prime. A guest that fails
    /// on the way gives its failure.
    pub fn from_bytes<H: Fn(Action) -> Reply>(data: &Vec<u8>, host: &H) -> (r: Result<
        WitnessCalculator,
        WitnessError,
    >)
        requires
            forall|action: Action| call_requires(host, (action,)),
        ensures
            exists|replies: Seq<Reply>| #[trigger] discovery_gives(host, data@, replies, r),
    {
        let mut engine = WitnessEngine::discovery();
        let ghost start = engine@;
        engine.run(host);
        let ghost replies = choose|replies: Seq<Reply>|
            engine@ == start.run(replies) && #[trigger] answered(host, start, replies);
        let r = Self::from_discovery(data, &engine);
        proof {
            lemma_run_keeps_inputs(start, replies);
            assert(discovery_gives(host, data@, replies, r));
        }
        r
    }

    /// Computes the witness for the given inputs through `host`, which
    /// performs each action on a guest freshly loaded from the calculator's
    /// module: the guest is prepared, handed every input value, and asked
    /// for the witness, whose values are then normalized under the prime
    /// `modulus` of the field that they are meant for. The calculator is left
    /// as it was.
    ///
    /// There is no partial success: on any failure the result is the
    /// failure alone.
    ///
    /// A signal may have at most `2^32` values: positions are 32-bit words.
    pub fn calculate_witness_element<H: Fn(Action) -> Reply>(
        &mut self,
        host: &H,
        inputs: Vec<(String, Vec<BigInt>)>,
        sanity_check: bool,
        modulus: &BigInt,
    ) -> (r: Result<Vec<BigInt>, WitnessError>)
        requires
            forall|action: Action| call_requires(host, (action,)),
            forall|k: int|
                0 <= k < inputs@.len() ==> (#[trigger] inputs@[k]).1@.len() <= 0x1_0000_0000,
        ensures
            *final(self) == *old(self),
            exists|replies: Seq<Reply>| #[trigger]
                computation_gives(
                    host,
                    assignment_view(inputs@),
                    sanity_check,
                    int_of(modulus),
                    replies,
                    r,
                ),
    {
        let ghost assignment = assignment_view(inputs@);
        let mut engine = WitnessEngine::new(inputs, sanity_check);
        let ghost start = engine@;
        engine.run(host);
        let ghost end = engine@;
        let ghost replies = choose|replies: Seq<Reply>|
            engine@ == start.run(replies) && #[trigger] answered(host, start, replies);
        proof {
            lemma_run_keeps_inputs(start, replies);
        }
        let r = match engine.into_witness() {
            Ok(raw) => {
                let witness = normalize_witness(&raw, modulus);
                assert forall|i: int| 0 <= i < witness@.len() implies int_of(
                    &#[trigger] witness@[i],
                ) == canonical_representative(end.witness[i], int_of(modulus)) by {
                    assert(end.witness[i] == int_of(&raw@[i]));
                }
                Ok(witness)
            },
            Err(e) => Err(e),
        };
        proof {
            assert(computation_gives(host, assignment, sanity_check, int_of(modulus), replies, r));
        }
        r
    }
}

} // verus!
