//! The protocol state machine: Prepare, Compute (double-blind), and
//! Finalize, with the intersection matcher embedded in the final
//! transition. Each transition consumes the phase value it starts from.

use vstd::prelude::*;
use crate::byte_views;
use crate::item_views;
use crate::pair_views;
use crate::crypto::blind_point;
use crate::crypto::blinded_of;
use crate::crypto::contains_point;
use crate::crypto::decompress_point;
use crate::crypto::curve_point_of;
use crate::crypto::dedup;
use crate::crypto::digest_of;
use crate::crypto::digests_of_items;
use crate::crypto::joint_of;
use crate::crypto::hash_inputs_to_points;
use crate::crypto::lemma_dedup;
use crate::crypto::pair_firsts;
use crate::crypto::point_decodes;
use crate::crypto::random_scalar;
use crate::crypto::scalar_mult_of;
use crate::crypto::blind_points;
use crate::error::PsiError;
use crate::messages::BlindedPointsMessage;
use crate::messages::DoubleBlindedPointsMessage;
use crate::messages::PsiResult;
use crate::state::DoubleBlindedState;
use crate::state::FinalState;
use crate::state::PreparedState;
use crate::state::PsiState;

verus! {

/// A participant's run, in whichever phase `S` says; only the operations of
/// the current phase are available, and a transition consumes the value.
#[derive(Debug)]
pub struct PsiProtocol<S: PsiState> {
    /// The current phase's data.
    pub state: S,
}

/// The digests a participant reports at the final transition: those at
/// positions `i` of the local digest ordering for which the peer's
/// double-blinded point at position `i` equals one of the locally computed
/// double-blinded points.
pub open spec fn match_digests(
    order: Seq<Seq<u8>>,
    received: Seq<Seq<u8>>,
    computed: Seq<Seq<u8>>,
) -> Seq<Seq<u8>>
    decreases received.len(),
{
    if received.len() == 0 {
        Seq::<Seq<u8>>::empty()
    } else {
        let prefix = match_digests(order, received.drop_last(), computed);
        if computed.contains(received.last()) && received.len() - 1 < order.len() {
            prefix.push(order[received.len() - 1])
        } else {
            prefix
        }
    }
}

/// The digest–point pairs a participant reports at the final transition,
/// parallel to `match_digests`.
pub open spec fn match_pairs(
    order: Seq<Seq<u8>>,
    received: Seq<Seq<u8>>,
    computed: Seq<Seq<u8>>,
) -> Seq<(Seq<u8>, Seq<u8>)>
    decreases received.len(),
{
    if received.len() == 0 {
        Seq::<(Seq<u8>, Seq<u8>)>::empty()
    } else {
        let prefix = match_pairs(order, received.drop_last(), computed);
        if computed.contains(received.last()) && received.len() - 1 < order.len() {
            prefix.push((order[received.len() - 1], received.last()))
        } else {
            prefix
        }
    }
}

/// What the matcher reports, element by element: a digest is reported
/// exactly when it stands at a position of the local ordering whose
/// received double-blinded point is among the locally computed ones.
pub proof fn lemma_match_digests(order: Seq<Seq<u8>>, received: Seq<Seq<u8>>, computed: Seq<Seq<u8>>)
    ensures
        forall|d: Seq<u8>|
            match_digests(order, received, computed).contains(d) <==> exists|i: int|
                0 <= i < received.len() && i < order.len() && order[i] == d && computed.contains(
                    #[trigger] received[i],
                ),
    decreases received.len(),
{
    if received.len() == 0 {
    } else {
        lemma_match_digests(order, received.drop_last(), computed);
        let m = match_digests(order, received, computed);
        let prefix = match_digests(order, received.drop_last(), computed);
        let last = received.len() - 1;
        assert forall|d: Seq<u8>| m.contains(d) implies exists|i: int|
            0 <= i < received.len() && i < order.len() && order[i] == d && computed.contains(
                #[trigger] received[i],
            ) by {
            let j = choose|j: int| 0 <= j < m.len() && m[j] == d;
            if j < prefix.len() {
                assert(prefix.contains(d));
                let i = choose|i: int|
                    0 <= i < received.drop_last().len() && i < order.len()
                        && order[i] == d && computed.contains(#[trigger] received.drop_last()[i]);
                assert(received[i] == received.drop_last()[i]);
            } else {
                assert(computed.contains(received.last()) && last < order.len() && order[last]
                    == d);
                assert(received[last] == received.last());
            }
        }
        assert forall|d: Seq<u8>|
            (exists|i: int|
                0 <= i < received.len() && i < order.len() && order[i] == d && computed.contains(
                    #[trigger] received[i],
                )) implies m.contains(d) by {
            let i = choose|i: int|
                0 <= i < received.len() && i < order.len() && order[i] == d && computed.contains(
                    #[trigger] received[i],
                );
            if i < last {
                assert(received.drop_last()[i] == received[i]);
                assert(prefix.contains(d));
                let j = choose|j: int| 0 <= j < prefix.len() && prefix[j] == d;
                assert(m[j] == d);
            } else {
                assert(received.last() == received[i]);
                assert(m.last() == d);
            }
        }
    }
}

/// The matcher reports no digest twice when the local ordering holds no
/// digest twice.
pub proof fn lemma_match_digests_no_dup(
    order: Seq<Seq<u8>>,
    received: Seq<Seq<u8>>,
    computed: Seq<Seq<u8>>,
)
    requires
        order.no_duplicates(),
    ensures
        match_digests(order, received, computed).no_duplicates(),
    decreases received.len(),
{
    if received.len() == 0 {
    } else {
        lemma_match_digests_no_dup(order, received.drop_last(), computed);
        let prefix = match_digests(order, received.drop_last(), computed);
        let last = received.len() - 1;
        if computed.contains(received.last()) && last < order.len() {
            if prefix.contains(order[last]) {
                lemma_match_digests(order, received.drop_last(), computed);
                let i = choose|i: int|
                    0 <= i < received.drop_last().len() && i < order.len() && order[i]
                        == order[last] && computed.contains(#[trigger] received.drop_last()[i]);
                assert(false);
            }
        }
    }
}

impl PsiProtocol<PreparedState> {
    /// The prepared phase is well formed: one blinded point per digest, no
    /// digest twice, and each blinded point is the digest's curve point
    /// multiplied by the secret, in canonical (decodable) encoding.
    pub open spec fn wf(self) -> bool {
        &&& self.state.digests@.len() == self.state.blinded@.len()
        &&& byte_views(self.state.digests@).no_duplicates()
        &&& forall|i: int|
            0 <= i < self.state.digests@.len() ==> (#[trigger] self.state.blinded@[i])@
                == blinded_of(self.state.digests@[i]@, self.state.secret@) && point_decodes(
                self.state.blinded@[i]@,
            )
    }

    /// Start a run: draw a fresh secret, hash every item to its digest,
    /// collapse duplicate digests, and blind each digest's curve point.
    /// Fails exactly when `items` is empty.
    pub fn new(items: &[Vec<u8>]) -> (r: Result<PsiProtocol<PreparedState>, PsiError>)
        ensures
            r is Ok <==> items@.len() > 0,
            r matches Err(e) ==> e is EmptyInput,
            r matches Ok(proto) ==> proto.wf() && byte_views(proto.state.digests@) == dedup(
                digests_of_items(item_views(items@)),
            ),
    {
        if items.is_empty() {
            return Err(PsiError::EmptyInput);
        }
        let secret = random_scalar();
        let pairs = hash_inputs_to_points(items);
        let blinded_pairs = blind_points(&pairs, &secret);

        let mut digests: Vec<[u8; 32]> = Vec::new();
        let mut blinded: Vec<[u8; 32]> = Vec::new();
        let n = blinded_pairs.len();
        let mut i: usize = 0;
        while i < n
            invariant
                n == blinded_pairs@.len(),
                0 <= i <= n,
                digests@.len() == i,
                blinded@.len() == i,
                forall|j: int| 0 <= j < i ==> (#[trigger] digests@[j]) == blinded_pairs@[j].0
                    && blinded@[j] == blinded_pairs@[j].1,
            decreases n - i,
        {
            digests.push(blinded_pairs[i].0);
            blinded.push(blinded_pairs[i].1);
            i = i + 1;
        }

        proof {
            lemma_dedup(digests_of_items(item_views(items@)));
            assert(byte_views(digests@) =~= pair_firsts(blinded_pairs@));
            assert(pair_firsts(blinded_pairs@) =~= pair_firsts(pairs@));
        }
        Ok(PsiProtocol { state: PreparedState::new(secret, digests, blinded) })
    }

    /// The first-round message: the blinded points, in the recorded digest
    /// order. Read-only; the result is the same on every call before the
    /// next transition.
    pub fn message(&self) -> (msg: BlindedPointsMessage)
        ensures
            msg.blinded_points@ == self.state.blinded@,
    {
        BlindedPointsMessage::new(copy_points(&self.state.blinded))
    }

    /// Double-blind the peer's points: decode each received encoding (fail
    /// on the first invalid one) and multiply it by the local secret. On
    /// success, hands back the next phase value and the second-round message
    /// to send; the message lists the results in the peer's order.
    pub fn compute(self, remote_msg: BlindedPointsMessage) -> (r: Result<
        (PsiProtocol<DoubleBlindedState>, DoubleBlindedPointsMessage),
        PsiError,
    >)
        requires
            self.wf(),
        ensures
            r is Ok <==> (forall|i: int|
                0 <= i < remote_msg.blinded_points@.len() ==> point_decodes(
                    (#[trigger] remote_msg.blinded_points@[i])@,
                )),
            r matches Err(e) ==> (e matches PsiError::CryptoError(m) && m@
                == "Failed to decompress Ristretto point"@),
            r matches Ok(pr) ==> ({
                &&& pr.0.wf()
                &&& pr.0.state.secret == self.state.secret
                &&& pr.0.state.digests == self.state.digests
                &&& pr.0.state.blinded == self.state.blinded
                &&& pr.0.state.double_blinded_from_remote@ == pr.1.double_blinded_points@
                &&& pr.1.double_blinded_points@.len() == remote_msg.blinded_points@.len()
                &&& forall|i: int|
                    0 <= i < remote_msg.blinded_points@.len() ==> (
                    #[trigger] pr.1.double_blinded_points@[i])@ == scalar_mult_of(
                        remote_msg.blinded_points@[i]@,
                        self.state.secret@,
                    )
                &&& forall|i: int, d: Seq<u8>, s: Seq<u8>|
                    #![trigger pr.1.double_blinded_points@[i], blinded_of(d, s)]
                    0 <= i < remote_msg.blinded_points@.len() && remote_msg.blinded_points@[i]@
                        == blinded_of(d, s) ==> pr.1.double_blinded_points@[i]@ == scalar_mult_of(
                        blinded_of(d, self.state.secret@),
                        s,
                    )
            }),
    {
        let mut out_points: Vec<[u8; 32]> = Vec::new();
        let n = remote_msg.blinded_points.len();
        let mut i: usize = 0;
        while i < n
            invariant
                n == remote_msg.blinded_points@.len(),
                0 <= i <= n,
                out_points@.len() == i,
                forall|j: int| 0 <= j < i ==> point_decodes(
                    (#[trigger] remote_msg.blinded_points@[j])@,
                ),
                forall|j: int| 0 <= j < i ==> (#[trigger] out_points@[j])@ == scalar_mult_of(
                    remote_msg.blinded_points@[j]@,
                    self.state.secret@,
                ),
                forall|j: int, d: Seq<u8>, s: Seq<u8>|
                    #![trigger out_points@[j], blinded_of(d, s)]
                    0 <= j < i && remote_msg.blinded_points@[j]@ == blinded_of(d, s)
                        ==> out_points@[j]@ == scalar_mult_of(blinded_of(d, self.state.secret@), s),
            decreases n - i,
        {
            let p = remote_msg.blinded_points[i];
            match decompress_point(&p) {
                Err(e) => {
                    return Err(e);
                },
                Ok(valid) => {
                    let db = blind_point(&valid, &self.state.secret);
                    out_points.push(db);
                },
            }
            i = i + 1;
        }
        let next = DoubleBlindedState::new(
            self.state.secret,
            self.state.digests,
            self.state.blinded,
            copy_points(&out_points),
        );
        let message = DoubleBlindedPointsMessage::new(out_points);
        Ok((PsiProtocol { state: next }, message))
    }
}

impl PsiProtocol<DoubleBlindedState> {
    /// The double-blinded phase is well formed: no digest appears twice in
    /// the recorded ordering.
    pub open spec fn wf(self) -> bool {
        byte_views(self.state.digests@).no_duplicates()
    }

    /// Match the peer's double-blinded points against the locally computed
    /// ones and collect the digests (and their double-blinded points) that
    /// both sets share. Consumes the phase value; the final phase holds no
    /// secret.
    pub fn finalize(self, remote_msg: DoubleBlindedPointsMessage) -> (r: Result<
        (PsiProtocol<FinalState>, PsiResult),
        PsiError,
    >)
        requires
            self.wf(),
        ensures
            r is Ok,
            r matches Ok(pr) ==> ({
                let order = byte_views(self.state.digests@);
                let received = byte_views(remote_msg.double_blinded_points@);
                let computed = byte_views(self.state.double_blinded_from_remote@);
                &&& byte_views(pr.1.intersection_hashes@) == match_digests(
                    order,
                    received,
                    computed,
                )
                &&& pair_views(pr.1.double_blinded_map@) == match_pairs(order, received, computed)
                &&& byte_views(pr.1.intersection_hashes@).no_duplicates()
                &&& pr.0.state.hash_to_double_blinded@ == pr.1.double_blinded_map@
            }),
    {
        let ghost order = byte_views(self.state.digests@);
        let ghost received = byte_views(remote_msg.double_blinded_points@);
        let ghost computed = byte_views(self.state.double_blinded_from_remote@);
        let mut hashes: Vec<[u8; 32]> = Vec::new();
        let mut map: Vec<([u8; 32], [u8; 32])> = Vec::new();
        let n = remote_msg.double_blinded_points.len();
        let mut i: usize = 0;
        while i < n
            invariant
                n == remote_msg.double_blinded_points@.len(),
                0 <= i <= n,
                order == byte_views(self.state.digests@),
                received == byte_views(remote_msg.double_blinded_points@),
                computed == byte_views(self.state.double_blinded_from_remote@),
                byte_views(hashes@) =~= match_digests(order, received.take(i as int), computed),
                pair_views(map@) =~= match_pairs(order, received.take(i as int), computed),
            decreases n - i,
        {
            proof {
                assert(received.take(i + 1 as int).drop_last() =~= received.take(i as int));
                assert(received.take(i + 1 as int).last() == received[i as int]);
            }
            let p = remote_msg.double_blinded_points[i];
            if contains_point(&self.state.double_blinded_from_remote, &p) {
                if i < self.state.digests.len() {
                    let d = self.state.digests[i];
                    hashes.push(d);
                    map.push((d, p));
                    proof {
                        assert(byte_views(hashes@) =~= byte_views(hashes@.drop_last()).push(d@));
                        assert(pair_views(map@) =~= pair_views(map@.drop_last()).push((d@, p@)));
                    }
                }
            }
            i = i + 1;
        }
        proof {
            assert(received.take(n as int) =~= received);
            lemma_match_digests_no_dup(order, received, computed);
        }
        let final_state = FinalState::new(copy_pairs(&map));
        let result = PsiResult::new(hashes, map);
        Ok((PsiProtocol { state: final_state }, result))
    }
}

impl PsiProtocol<FinalState> {
    /// The intersection's digest-to-double-blinded-point pairs, for
    /// inspection or verification after the run.
    pub fn double_blinded_map(&self) -> (r: &Vec<([u8; 32], [u8; 32])>)
        ensures
            r == self.state.hash_to_double_blinded,
    {
        &self.state.hash_to_double_blinded
    }
}

/// All joint blinded values of a digest sequence: each digest's curve point
/// multiplied first by `s_inner`, and the result by `s_outer`.
pub open spec fn joints_of(ds: Seq<Seq<u8>>, s_inner: Seq<u8>, s_outer: Seq<u8>) -> Seq<Seq<u8>> {
    ds.map_values(|d: Seq<u8>| joint_of(d, s_inner, s_outer))
}

/// What a joint run reports, characterized against the two sides'
/// deduplicated digest sequences `da` and `db` and the two secrets: each
/// side's reported digests `ha` resp. `hb` are exactly its own digests whose
/// joint blinded value occurs among the other side's joint blinded values.
pub open spec fn pair_run_matches(
    da: Seq<Seq<u8>>,
    db: Seq<Seq<u8>>,
    sa: Seq<u8>,
    sb: Seq<u8>,
    ha: Seq<Seq<u8>>,
    hb: Seq<Seq<u8>>,
) -> bool {
    &&& (forall|d: Seq<u8>|
        #[trigger] ha.contains(d) <==> da.contains(d) && joints_of(db, sa, sb).contains(
            joint_of(d, sa, sb),
        ))
    &&& (forall|d: Seq<u8>|
        #[trigger] hb.contains(d) <==> db.contains(d) && joints_of(da, sa, sb).contains(
            joint_of(d, sa, sb),
        ))
}

/// The joint blinding under two secrets tells digests apart: no two
/// distinct digests of the two sequences share a joint blinded value.
pub open spec fn joint_injective(
    sa: Seq<u8>,
    sb: Seq<u8>,
    da: Seq<Seq<u8>>,
    db: Seq<Seq<u8>>,
) -> bool {
    forall|d1: Seq<u8>, d2: Seq<u8>|
        #![trigger joint_of(d1, sa, sb), joint_of(d2, sa, sb)]
        (da.contains(d1) || db.contains(d1)) && (da.contains(d2) || db.contains(d2)) && joint_of(
            d1,
            sa,
            sb,
        ) == joint_of(d2, sa, sb) ==> d1 == d2
}

/// Run the whole protocol for both participants in one process: prepare both
/// sides, exchange the blinded-point messages, double-blind, exchange again,
/// and finalize. Fails exactly when either item sequence is empty. On
/// success, some pair of secrets characterizes both reported digest
/// sequences exactly; unconditionally, every digest common to both sides is
/// reported by both, each side reports only digests of its own set, and no
/// side reports a digest twice.
pub fn run_pair(alice_items: &[Vec<u8>], bob_items: &[Vec<u8>]) -> (r: Result<
    (PsiResult, PsiResult),
    PsiError,
>)
    ensures
        r is Ok <==> (alice_items@.len() > 0 && bob_items@.len() > 0),
        r matches Err(e) ==> e is EmptyInput,
        r matches Ok(results) ==> ({
            let da = dedup(digests_of_items(item_views(alice_items@)));
            let db = dedup(digests_of_items(item_views(bob_items@)));
            let ha = byte_views(results.0.intersection_hashes@);
            let hb = byte_views(results.1.intersection_hashes@);
            &&& exists|sa: Seq<u8>, sb: Seq<u8>| #[trigger] pair_run_matches(da, db, sa, sb, ha, hb)
            &&& forall|d: Seq<u8>|
                da.contains(d) && db.contains(d) ==> #[trigger] ha.contains(d) && hb.contains(d)
            &&& forall|d: Seq<u8>| #[trigger] ha.contains(d) ==> da.contains(d)
            &&& forall|d: Seq<u8>| #[trigger] hb.contains(d) ==> db.contains(d)
            &&& ha.no_duplicates()
            &&& hb.no_duplicates()
        }),
{
    let alice = match PsiProtocol::new(alice_items) {
        Ok(a) => a,
        Err(e) => {
            return Err(e);
        },
    };
    let bob = match PsiProtocol::new(bob_items) {
        Ok(b) => b,
        Err(e) => {
            return Err(e);
        },
    };
    let ghost sa = alice.state.secret@;
    let ghost sb = bob.state.secret@;
    let ghost da = byte_views(alice.state.digests@);
    let ghost db = byte_views(bob.state.digests@);

    let alice_msg = alice.message();
    let bob_msg = bob.message();
    proof {
        assert forall|i: int| 0 <= i < alice_msg.blinded_points@.len() implies point_decodes(
            (#[trigger] alice_msg.blinded_points@[i])@,
        ) by {
            assert(alice_msg.blinded_points@[i] == alice.state.blinded@[i]);
        }
        assert forall|i: int| 0 <= i < bob_msg.blinded_points@.len() implies point_decodes(
            (#[trigger] bob_msg.blinded_points@[i])@,
        ) by {
            assert(bob_msg.blinded_points@[i] == bob.state.blinded@[i]);
        }
    }
    let (alice_mid, alice_dmsg) = match alice.compute(bob_msg) {
        Ok(x) => x,
        Err(e) => {
            proof {
                assert(false);
            }
            return Err(e);
        },
    };
    let (bob_mid, bob_dmsg) = match bob.compute(alice_msg) {
        Ok(x) => x,
        Err(e) => {
            proof {
                assert(false);
            }
            return Err(e);
        },
    };

    proof {
        // What Bob sent back lists, in Alice's order, the joint blinded
        // value of each of Alice's digests.
        assert forall|i: int| 0 <= i < bob_dmsg.double_blinded_points@.len() implies (
        #[trigger] bob_dmsg.double_blinded_points@[i])@ == joint_of(da[i], sa, sb) by {
            assert(alice_msg.blinded_points@[i]@ == blinded_of(da[i], sa));
        }
        // What Alice sent back lists, in Bob's order, the joint blinded
        // value of each of Bob's digests — with the secrets applied in the
        // other order, and commuted by the blinding contract.
        assert forall|i: int| 0 <= i < alice_dmsg.double_blinded_points@.len() implies (
        #[trigger] alice_dmsg.double_blinded_points@[i])@ == joint_of(db[i], sa, sb) by {
            assert(bob_msg.blinded_points@[i]@ == blinded_of(db[i], sb));
        }
        assert(byte_views(bob_dmsg.double_blinded_points@) =~= joints_of(da, sa, sb));
        assert(byte_views(alice_dmsg.double_blinded_points@) =~= joints_of(db, sa, sb));
    }

    let ghost received_a = byte_views(bob_dmsg.double_blinded_points@);
    let ghost computed_a = byte_views(alice_mid.state.double_blinded_from_remote@);
    let ghost received_b = byte_views(alice_dmsg.double_blinded_points@);
    let ghost computed_b = byte_views(bob_mid.state.double_blinded_from_remote@);

    let (_alice_final, alice_result) = match alice_mid.finalize(bob_dmsg) {
        Ok(x) => x,
        Err(e) => {
            proof {
                assert(false);
            }
            return Err(e);
        },
    };
    let (_bob_final, bob_result) = match bob_mid.finalize(alice_dmsg) {
        Ok(x) => x,
        Err(e) => {
            proof {
                assert(false);
            }
            return Err(e);
        },
    };

    proof {
        let ha = byte_views(alice_result.intersection_hashes@);
        let hb = byte_views(bob_result.intersection_hashes@);
        lemma_match_digests(da, received_a, computed_a);
        lemma_match_digests(db, received_b, computed_b);
        assert forall|d: Seq<u8>| #[trigger] ha.contains(d) implies da.contains(d) && joints_of(
            db,
            sa,
            sb,
        ).contains(joint_of(d, sa, sb)) by {
            let i = choose|i: int|
                0 <= i < received_a.len() && i < da.len() && da[i] == d && computed_a.contains(
                    #[trigger] received_a[i],
                );
            assert(received_a[i] == joint_of(d, sa, sb));
        }
        assert forall|d: Seq<u8>|
            da.contains(d) && joints_of(db, sa, sb).contains(
                joint_of(d, sa, sb),
            ) implies #[trigger] ha.contains(d) by {
            let i = choose|i: int| 0 <= i < da.len() && da[i] == d;
            assert(received_a[i] == joint_of(d, sa, sb));
            assert(computed_a.contains(received_a[i]));
        }
        assert forall|d: Seq<u8>| #[trigger] hb.contains(d) implies db.contains(d) && joints_of(
            da,
            sa,
            sb,
        ).contains(joint_of(d, sa, sb)) by {
            let i = choose|i: int|
                0 <= i < received_b.len() && i < db.len() && db[i] == d && computed_b.contains(
                    #[trigger] received_b[i],
                );
            assert(received_b[i] == joint_of(d, sa, sb));
        }
        assert forall|d: Seq<u8>|
            db.contains(d) && joints_of(da, sa, sb).contains(
                joint_of(d, sa, sb),
            ) implies #[trigger] hb.contains(d) by {
            let i = choose|i: int| 0 <= i < db.len() && db[i] == d;
            assert(received_b[i] == joint_of(d, sa, sb));
            assert(computed_b.contains(received_b[i]));
        }
        assert(pair_run_matches(da, db, sa, sb, ha, hb));
        assert forall|d: Seq<u8>| da.contains(d) && db.contains(d) implies #[trigger] ha.contains(
            d,
        ) && hb.contains(d) by {
            let j = choose|j: int| 0 <= j < db.len() && db[j] == d;
            assert(joints_of(db, sa, sb)[j] == joint_of(d, sa, sb));
            assert(joints_of(db, sa, sb).contains(joint_of(d, sa, sb)));
            let i = choose|i: int| 0 <= i < da.len() && da[i] == d;
            assert(joints_of(da, sa, sb)[i] == joint_of(d, sa, sb));
            assert(joints_of(da, sa, sb).contains(joint_of(d, sa, sb)));
        }
        // Restate the run's account over the item sequences themselves, the
        // terms the contract speaks of.
        let dda = dedup(digests_of_items(item_views(alice_items@)));
        let ddb = dedup(digests_of_items(item_views(bob_items@)));
        assert(da == dda && db == ddb);
        assert(pair_run_matches(dda, ddb, sa, sb, ha, hb));
        assert(forall|d: Seq<u8>|
            dda.contains(d) && ddb.contains(d) ==> #[trigger] ha.contains(d) && hb.contains(d));
        assert(forall|d: Seq<u8>| #[trigger] ha.contains(d) ==> dda.contains(d));
        assert(forall|d: Seq<u8>| #[trigger] hb.contains(d) ==> ddb.contains(d));
    }
    Ok((alice_result, bob_result))
}

/// Symmetry and correctness of the matching rule: in a joint run whose
/// reported digest sequences satisfy `pair_run_matches`, and in which the
/// joint blinding tells the digests involved apart (collision resistance of
/// the hash-to-curve map and the group's prime order leave distinct digests
/// with distinct joint values except with negligible probability), the two
/// sides report the same set of digests — exactly the digests common to
/// both sides, no more and no fewer.
pub proof fn lemma_match_symmetry(
    da: Seq<Seq<u8>>,
    db: Seq<Seq<u8>>,
    sa: Seq<u8>,
    sb: Seq<u8>,
    ha: Seq<Seq<u8>>,
    hb: Seq<Seq<u8>>,
)
    ensures
        (pair_run_matches(da, db, sa, sb, ha, hb) && joint_injective(sa, sb, da, db)) ==> ((forall|
            d: Seq<u8>,
        |
            #[trigger] ha.contains(d) <==> hb.contains(d)) && (forall|d: Seq<u8>|
            #[trigger] ha.contains(d) <==> da.contains(d) && db.contains(d))),
{
    if pair_run_matches(da, db, sa, sb, ha, hb) && joint_injective(sa, sb, da, db) {
        assert forall|d: Seq<u8>| #[trigger] ha.contains(d) implies da.contains(d) && db.contains(
            d,
        ) by {
            let j = choose|j: int|
                0 <= j < joints_of(db, sa, sb).len() && joints_of(db, sa, sb)[j] == joint_of(
                    d,
                    sa,
                    sb,
                );
            assert(joints_of(db, sa, sb)[j] == joint_of(db[j], sa, sb));
            assert(db.contains(db[j]));
            assert(db[j] == d);
        }
        assert forall|d: Seq<u8>| da.contains(d) && db.contains(d) implies #[trigger] ha.contains(
            d,
        ) by {
            let j = choose|j: int| 0 <= j < db.len() && db[j] == d;
            assert(joints_of(db, sa, sb)[j] == joint_of(d, sa, sb));
            assert(joints_of(db, sa, sb).contains(joint_of(d, sa, sb)));
        }
        assert forall|d: Seq<u8>| #[trigger] hb.contains(d) implies da.contains(d) && db.contains(
            d,
        ) by {
            let j = choose|j: int|
                0 <= j < joints_of(da, sa, sb).len() && joints_of(da, sa, sb)[j] == joint_of(
                    d,
                    sa,
                    sb,
                );
            assert(joints_of(da, sa, sb)[j] == joint_of(da[j], sa, sb));
            assert(da.contains(da[j]));
            assert(da[j] == d);
        }
        assert forall|d: Seq<u8>| da.contains(d) && db.contains(d) implies #[trigger] hb.contains(
            d,
        ) by {
            let j = choose|j: int| 0 <= j < da.len() && da[j] == d;
            assert(joints_of(da, sa, sb)[j] == joint_of(d, sa, sb));
            assert(joints_of(da, sa, sb).contains(joint_of(d, sa, sb)));
        }
    }
}

/// Correctness over the item sequences themselves: in a joint run over item
/// sequences `ia` and `ib` whose reported digest sequences satisfy
/// `pair_run_matches`, and in which the joint blinding tells the digests
/// apart, a side reports a digest exactly when it is the digest of one of
/// its own items and of one of the other side's items — the intersection of
/// the two digest sets, no more and no fewer.
pub proof fn lemma_intersection_correct(
    ia: Seq<Seq<u8>>,
    ib: Seq<Seq<u8>>,
    sa: Seq<u8>,
    sb: Seq<u8>,
    ha: Seq<Seq<u8>>,
    hb: Seq<Seq<u8>>,
)
    ensures
        (pair_run_matches(
            dedup(digests_of_items(ia)),
            dedup(digests_of_items(ib)),
            sa,
            sb,
            ha,
            hb,
        ) && joint_injective(
            sa,
            sb,
            dedup(digests_of_items(ia)),
            dedup(digests_of_items(ib)),
        )) ==> (forall|d: Seq<u8>|
            #[trigger] ha.contains(d) <==> ((exists|x: Seq<u8>|
                ia.contains(x) && digest_of(x) == d) && (exists|y: Seq<u8>|
                ib.contains(y) && digest_of(y) == d))),
{
    let da = dedup(digests_of_items(ia));
    let db = dedup(digests_of_items(ib));
    if pair_run_matches(da, db, sa, sb, ha, hb) && joint_injective(sa, sb, da, db) {
        lemma_match_symmetry(da, db, sa, sb, ha, hb);
        lemma_dedup(digests_of_items(ia));
        lemma_dedup(digests_of_items(ib));
        assert forall|d: Seq<u8>| #[trigger] ha.contains(d) implies ((exists|x: Seq<u8>|
            ia.contains(x) && digest_of(x) == d) && (exists|y: Seq<u8>|
            ib.contains(y) && digest_of(y) == d)) by {
            assert(da.contains(d) && db.contains(d));
            assert(digests_of_items(ia).contains(d));
            assert(digests_of_items(ib).contains(d));
            let i = choose|i: int|
                0 <= i < digests_of_items(ia).len() && digests_of_items(ia)[i] == d;
            assert(ia.contains(ia[i]) && digest_of(ia[i]) == d);
            let j = choose|j: int|
                0 <= j < digests_of_items(ib).len() && digests_of_items(ib)[j] == d;
            assert(ib.contains(ib[j]) && digest_of(ib[j]) == d);
        }
        assert forall|d: Seq<u8>|
            ((exists|x: Seq<u8>| ia.contains(x) && digest_of(x) == d) && (exists|y: Seq<u8>|
                ib.contains(y) && digest_of(y) == d)) implies #[trigger] ha.contains(d) by {
            let x = choose|x: Seq<u8>| ia.contains(x) && digest_of(x) == d;
            let i = choose|i: int| 0 <= i < ia.len() && ia[i] == x;
            assert(digests_of_items(ia)[i] == d);
            assert(digests_of_items(ia).contains(d));
            let y = choose|y: Seq<u8>| ib.contains(y) && digest_of(y) == d;
            let j = choose|j: int| 0 <= j < ib.len() && ib[j] == y;
            assert(digests_of_items(ib)[j] == d);
            assert(digests_of_items(ib).contains(d));
        }
    }
}

/// Determinism of the primitive maps: the digest, the curve point, and the
/// blinded point of an input are functions of the bytes alone, so two
/// participants — or two runs — working from equal bytes reach equal
/// values.
pub proof fn lemma_primitives_deterministic(x: Seq<u8>, y: Seq<u8>, s: Seq<u8>)
    ensures
        x == y ==> digest_of(x) == digest_of(y),
        x == y ==> curve_point_of(x) == curve_point_of(y),
        x == y ==> blinded_of(x, s) == blinded_of(y, s),
{
}

/// Element-wise copy of a point vector.
fn copy_points(v: &Vec<[u8; 32]>) -> (r: Vec<[u8; 32]>)
    ensures
        r@ == v@,
{
    let mut out: Vec<[u8; 32]> = Vec::new();
    let n = v.len();
    let mut i: usize = 0;
    while i < n
        invariant
            n == v@.len(),
            0 <= i <= n,
            out@ =~= v@.take(i as int),
        decreases n - i,
    {
        out.push(v[i]);
        i = i + 1;
    }
    assert(out@ =~= v@);
    out
}

/// Element-wise copy of a digest–point pair vector.
fn copy_pairs(v: &Vec<([u8; 32], [u8; 32])>) -> (r: Vec<([u8; 32], [u8; 32])>)
    ensures
        r@ == v@,
{
    let mut out: Vec<([u8; 32], [u8; 32])> = Vec::new();
    let n = v.len();
    let mut i: usize = 0;
    while i < n
        invariant
            n == v@.len(),
            0 <= i <= n,
            out@ =~= v@.take(i as int),
        decreases n - i,
    {
        out.push(v[i]);
        i = i + 1;
    }
    assert(out@ =~= v@);
    out
}

} // verus!
