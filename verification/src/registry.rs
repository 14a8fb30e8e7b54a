//! The contract's stored state across calls: the id counter and the circles
//! by id, what each state-changing entry point does to it, and the properties
//! that hold of every state reached from a fresh deployment.
//!
//! A refused call (an error, or a trap of the host) reverts, so it leaves the
//! stored state as it was. A call that reverts for a reason outside the
//! library (a missing authorization, a failed token transfer) leaves no trace
//! either: a sequence of calls with it stands for the same sequence without it.

use vstd::prelude::*;
use soroban_sdk::Address;
use crate::circle::{
    cancel_result, claim_admissible, claim_reaches_proof, claim_result, fund_result, new_circle,
    next_id, settled, CircleView, Error,
};
use crate::groth16::{groth16_accepts, ProofView, VerificationKeyView};
use crate::laws::lemma_fund_keeps_well_formed;

verus! {

/// A call of an entry point that can change the stored state, with its
/// arguments as values.
pub enum Call {
    Create {
        admin: Address,
        token: Address,
        root: Seq<u8>,
        contribution: i128,
        size: u32,
        vk: VerificationKeyView,
    },
    Fund { circle_id: u64, from: Address },
    Claim { circle_id: u64, nullifier: Seq<u8>, external: Seq<u8>, proof: ProofView },
    Cancel { circle_id: u64 },
}

/// What the contract stores: the id counter and the circles by id.
pub struct Registry {
    pub counter: Option<u64>,
    pub circles: Map<u64, CircleView>,
}

impl Registry {
    /// The circle stored at `circle_id`, if any: what `get_circle` reads.
    pub open spec fn lookup(self, circle_id: u64) -> Option<CircleView> {
        if self.circles.dom().contains(circle_id) {
            Some(self.circles[circle_id])
        } else {
            None
        }
    }

    /// What `get_circle_count` answers.
    pub open spec fn count(self) -> u64 {
        next_id(self.counter)
    }
}

/// The stored state of a freshly deployed contract.
pub open spec fn fresh_registry() -> Registry {
    Registry { counter: None, circles: Map::empty() }
}

/// The stored state after `call`.
pub open spec fn apply(s: Registry, call: Call) -> Registry {
    match call {
        Call::Create { admin, token, root, contribution, size, vk } => {
            let id = s.count();
            if id < u64::MAX {
                Registry {
                    counter: Some((id + 1) as u64),
                    circles: s.circles.insert(id, new_circle(admin, token, root, contribution, size, vk)),
                }
            } else {
                s
            }
        },
        Call::Fund { circle_id, from } => match fund_result(s.lookup(circle_id), from) {
            Ok(c) => Registry { counter: s.counter, circles: s.circles.insert(circle_id, c) },
            Err(_) => s,
        },
        Call::Claim { circle_id, nullifier, external, proof } => if claim_admissible(
            circle_id,
            s.lookup(circle_id),
            nullifier,
            external,
            proof,
        ) {
            match claim_result(circle_id, s.lookup(circle_id), nullifier, external, proof) {
                Ok((c, _)) => Registry { counter: s.counter, circles: s.circles.insert(circle_id, c) },
                Err(_) => s,
            }
        } else {
            s
        },
        Call::Cancel { circle_id } => match cancel_result(s.lookup(circle_id)) {
            Ok((c, _, _)) => Registry { counter: s.counter, circles: s.circles.insert(circle_id, c) },
            Err(_) => s,
        },
    }
}

/// The stored state after `calls`, made one after the other from `s`.
pub open spec fn run(s: Registry, calls: Seq<Call>) -> Registry
    decreases calls.len(),
{
    if calls.len() == 0 {
        s
    } else {
        apply(run(s, calls.drop_last()), calls.last())
    }
}

/// How many of `calls` are `Create`.
pub open spec fn creates(calls: Seq<Call>) -> nat
    decreases calls.len(),
{
    if calls.len() == 0 {
        0
    } else {
        creates(calls.drop_last()) + if calls.last() is Create {
            1nat
        } else {
            0nat
        }
    }
}

/// What holds of every circle the contract stores.
pub open spec fn circle_consistent(c: CircleView) -> bool {
    &&& c.well_formed()
    &&& c.nullifiers.len() == c.round
    &&& c.nullifiers.no_duplicates()
    &&& c.cancelled ==> c.pot == 0 && c.contributors.len() == 0
}

/// What holds of every stored state: the circles are exactly those with an id
/// below the counter, and each is consistent.
pub open spec fn registry_consistent(s: Registry) -> bool {
    &&& forall|id: u64| #[trigger] s.circles.dom().contains(id) <==> id < s.count()
    &&& forall|id: u64| s.circles.dom().contains(id) ==> circle_consistent(#[trigger] s.circles[id])
}

proof fn lemma_push_fresh_no_duplicates(s: Seq<Seq<u8>>, x: Seq<u8>)
    requires
        s.no_duplicates(),
        !s.contains(x),
    ensures
        s.push(x).no_duplicates(),
{
    let t = s.push(x);
    assert forall|i: int, j: int| 0 <= i < t.len() && 0 <= j < t.len() && i != j implies t[i]
        != t[j] by {
        if i == s.len() {
            assert(s[j] == t[j]);
        } else if j == s.len() {
            assert(s[i] == t[i]);
        }
    }
}

/// A successful claim on a consistent circle leaves it consistent.
proof fn lemma_claim_keeps_consistent(
    circle_id: u64,
    c: CircleView,
    nullifier: Seq<u8>,
    external: Seq<u8>,
    proof: ProofView,
)
    requires
        circle_consistent(c),
        claim_admissible(circle_id, Some(c), nullifier, external, proof),
        claim_result(circle_id, Some(c), nullifier, external, proof) is Ok,
    ensures
        claim_result(circle_id, Some(c), nullifier, external, proof)->Ok_0.0 == settled(
            c,
            nullifier,
        ),
        circle_consistent(settled(c, nullifier)),
        settled(c, nullifier).round == c.round + 1,
{
    assert(claim_reaches_proof(circle_id, c, nullifier, external));
    lemma_push_fresh_no_duplicates(c.nullifiers, nullifier);
    assert(c.contribution * 0 == 0) by (nonlinear_arith);
}

/// Every call keeps the stored state consistent.
proof fn lemma_apply_keeps_consistent(s: Registry, call: Call)
    requires
        registry_consistent(s),
    ensures
        registry_consistent(apply(s, call)),
        s.circles.dom().subset_of(apply(s, call).circles.dom()),
{
    let t = apply(s, call);
    match call {
        Call::Create { admin, token, root, contribution, size, vk } => {
            let id = s.count();
            if id < u64::MAX {
                assert(new_circle(admin, token, root, contribution, size, vk).nullifiers
                    =~= Seq::<Seq<u8>>::empty());
                assert(contribution * 0 == 0) by (nonlinear_arith);
                assert forall|k: u64| #[trigger] t.circles.dom().contains(k) <==> k < t.count() by {
                    if k < id {
                        assert(s.circles.dom().contains(k));
                    }
                }
            }
        },
        Call::Fund { circle_id, from } => {
            if let Ok(c) = fund_result(s.lookup(circle_id), from) {
                let old_c = s.circles[circle_id];
                lemma_fund_keeps_well_formed(old_c, from);
                assert forall|k: u64| #[trigger] t.circles.dom().contains(k) <==> k < t.count() by {
                    if k == circle_id {
                        assert(s.circles.dom().contains(k));
                    }
                }
            }
        },
        Call::Claim { circle_id, nullifier, external, proof } => {
            if claim_admissible(circle_id, s.lookup(circle_id), nullifier, external, proof) {
                if let Ok((c, _)) = claim_result(
                    circle_id,
                    s.lookup(circle_id),
                    nullifier,
                    external,
                    proof,
                ) {
                    let old_c = s.circles[circle_id];
                    lemma_claim_keeps_consistent(circle_id, old_c, nullifier, external, proof);
                    assert forall|k: u64| #[trigger] t.circles.dom().contains(k) <==> k
                        < t.count() by {
                        if k == circle_id {
                            assert(s.circles.dom().contains(k));
                        }
                    }
                }
            }
        },
        Call::Cancel { circle_id } => {
            if let Ok((c, _, _)) = cancel_result(s.lookup(circle_id)) {
                let old_c = s.circles[circle_id];
                assert(old_c.contribution * 0 == 0) by (nonlinear_arith);
                assert forall|k: u64| #[trigger] t.circles.dom().contains(k) <==> k < t.count() by {
                    if k == circle_id {
                        assert(s.circles.dom().contains(k));
                    }
                }
            }
        },
    }
}

/// Every state reached from a fresh deployment is consistent.
proof fn lemma_run_consistent(calls: Seq<Call>)
    ensures
        registry_consistent(run(fresh_registry(), calls)),
    decreases calls.len(),
{
    if calls.len() == 0 {
        assert(fresh_registry().circles.dom() =~= Set::<u64>::empty());
    } else {
        lemma_run_consistent(calls.drop_last());
        lemma_apply_keeps_consistent(run(fresh_registry(), calls.drop_last()), calls.last());
    }
}

proof fn lemma_run_split(s: Registry, prefix: Seq<Call>, rest: Seq<Call>)
    requires
        rest.len() > 0,
    ensures
        (prefix + rest).drop_last() == prefix + rest.drop_last(),
        (prefix + rest).last() == rest.last(),
        run(s, prefix + rest) == apply(run(s, prefix + rest.drop_last()), rest.last()),
{
    assert((prefix + rest).drop_last() =~= prefix + rest.drop_last());
}

/// A call leaves every other stored circle as it was, and changes a stored
/// circle only as a deposit, a claim or a cancellation does.
proof fn lemma_apply_on_stored(s: Registry, call: Call, circle_id: u64)
    requires
        registry_consistent(s),
        s.circles.dom().contains(circle_id),
    ensures
        apply(s, call).circles.dom().contains(circle_id),
        ({
            let (c, d) = (s.circles[circle_id], apply(s, call).circles[circle_id]);
            ||| d == c
            ||| fund_result(Some(c), call->Fund_from) == Ok::<CircleView, Error>(d)
            ||| (d == settled(c, call->Claim_nullifier) && !c.cancelled)
            ||| cancel_result(Some(c)) is Ok && d == cancel_result(Some(c))->Ok_0.0
        }),
{
    lemma_apply_keeps_consistent(s, call);
    if let Call::Claim { circle_id: k, nullifier, external, proof } = call {
        if k == circle_id && claim_admissible(k, s.lookup(k), nullifier, external, proof) {
            if claim_result(k, s.lookup(k), nullifier, external, proof) is Ok {
                lemma_claim_keeps_consistent(k, s.circles[k], nullifier, external, proof);
            }
        }
    }
}

/// In every state reached from a fresh deployment, each stored circle has
/// recorded one nullifier per completed round, and none twice: each payout
/// records exactly one new nullifier and advances the round by exactly one.
pub proof fn lemma_nullifiers_match_rounds(calls: Seq<Call>, circle_id: u64)
    ensures
        run(fresh_registry(), calls).lookup(circle_id) matches Some(c) ==> c.nullifiers.len()
            == c.round,
        run(fresh_registry(), calls).lookup(circle_id) matches Some(c)
            ==> c.nullifiers.no_duplicates(),
{
    lemma_run_consistent(calls);
}

/// In every state reached from a fresh deployment, a stored circle's pot is
/// one contribution per recorded depositor, it never has more depositors than
/// its size (so with a positive contribution the pot stays between 0 and
/// `contribution * size`), and a cancelled circle holds nothing.
pub proof fn lemma_pot_matches_deposits(calls: Seq<Call>, circle_id: u64)
    ensures
        run(fresh_registry(), calls).lookup(circle_id) matches Some(c) ==> c.pot == c.contribution
            * c.contributors.len(),
        run(fresh_registry(), calls).lookup(circle_id) matches Some(c) ==> c.contributors.len()
            <= c.size,
        run(fresh_registry(), calls).lookup(circle_id) matches Some(c) ==> (c.contribution > 0
            ==> 0 <= c.pot <= c.target()),
        run(fresh_registry(), calls).lookup(circle_id) matches Some(c) ==> (c.cancelled ==> c.pot
            == 0 && c.contributors.len() == 0),
{
    lemma_run_consistent(calls);
    if let Some(c) = run(fresh_registry(), calls).lookup(circle_id) {
        let (k, n, m) = (c.contribution as int, c.contributors.len() as int, c.size as int);
        assert(k > 0 ==> 0 <= k * n <= k * m) by (nonlinear_arith)
            requires
                0 <= n <= m,
        ;
    }
}

/// In every state reached from a fresh deployment, a circle is stored at
/// exactly the ids below the count: `get_circle` answers `CircleNotFound`
/// exactly when `circle_id >= get_circle_count()`.
pub proof fn lemma_circles_stored_below_count(calls: Seq<Call>, circle_id: u64)
    ensures
        run(fresh_registry(), calls).lookup(circle_id) is None <==> circle_id >= run(
            fresh_registry(),
            calls,
        ).count(),
{
    lemma_run_consistent(calls);
    let s = run(fresh_registry(), calls);
    assert(s.circles.dom().contains(circle_id) <==> circle_id < s.count());
}

proof fn lemma_creates_bounded(calls: Seq<Call>)
    ensures
        creates(calls) <= calls.len(),
    decreases calls.len(),
{
    if calls.len() > 0 {
        lemma_creates_bounded(calls.drop_last());
    }
}

/// The count is the number of creations made so far (while fewer calls than
/// `u64::MAX` were made).
pub proof fn lemma_count_is_creations(calls: Seq<Call>)
    requires
        calls.len() < u64::MAX,
    ensures
        run(fresh_registry(), calls).count() == creates(calls),
    decreases calls.len(),
{
    if calls.len() > 0 {
        lemma_count_is_creations(calls.drop_last());
        lemma_creates_bounded(calls.drop_last());
    }
}

/// Circles get ids 0, 1, 2, ... in the order they are created: the creation
/// at position `i` is assigned the count just before it, which is the number
/// of creations before it; nothing was stored under that id, and afterwards
/// the new circle is stored there and the count is one more.
pub proof fn lemma_creation_gets_next_id(calls: Seq<Call>, i: int)
    requires
        calls.len() < u64::MAX,
        0 <= i < calls.len(),
    ensures
        ({
            let before = run(fresh_registry(), calls.take(i));
            let after = run(fresh_registry(), calls.take(i + 1));
            calls[i] matches Call::Create { admin, token, root, contribution, size, vk } ==> {
                &&& before.count() == creates(calls.take(i))
                &&& before.lookup(before.count()) is None
                &&& after.count() == before.count() + 1
                &&& after.lookup(before.count()) == Some(
                    new_circle(admin, token, root, contribution, size, vk),
                )
                &&& forall|id: u64| #[trigger]
                    before.circles.dom().contains(id) ==> after.lookup(id) == before.lookup(id)
            }
        }),
{
    let before = run(fresh_registry(), calls.take(i));
    let after = run(fresh_registry(), calls.take(i + 1));
    assert(calls.take(i + 1).drop_last() =~= calls.take(i));
    assert(calls.take(i + 1).last() == calls[i]);
    assert(after == apply(before, calls[i]));
    lemma_count_is_creations(calls.take(i));
    lemma_creates_bounded(calls.take(i));
    lemma_run_consistent(calls.take(i));
    assert(!before.circles.dom().contains(before.count()));
    if let Call::Create { admin, token, root, contribution, size, vk } = calls[i] {
        assert(before.count() < u64::MAX);
        assert(after.circles.dom().contains(before.count()));
        assert forall|id: u64| #[trigger]
            before.circles.dom().contains(id) implies after.lookup(id) == before.lookup(id) by {
            assert(id != before.count());
        }
    }
}

/// A nullifier recorded on a stored circle stays recorded whatever calls
/// follow: once `has_claimed` answers true, it always does.
pub proof fn lemma_nullifier_fence_persists(
    prefix: Seq<Call>,
    rest: Seq<Call>,
    circle_id: u64,
    nullifier: Seq<u8>,
)
    requires
        run(fresh_registry(), prefix).lookup(circle_id) matches Some(c) && c.has_nullifier(
            nullifier,
        ),
    ensures
        run(fresh_registry(), prefix + rest).lookup(circle_id) matches Some(c) && c.has_nullifier(
            nullifier,
        ),
    decreases rest.len(),
{
    if rest.len() == 0 {
        assert(prefix + rest =~= prefix);
    } else {
        lemma_nullifier_fence_persists(prefix, rest.drop_last(), circle_id, nullifier);
        lemma_run_split(fresh_registry(), prefix, rest);
        let s = run(fresh_registry(), prefix + rest.drop_last());
        lemma_run_consistent(prefix + rest.drop_last());
        lemma_apply_on_stored(s, rest.last(), circle_id);
        let c = s.circles[circle_id];
        let i = choose|i: int| 0 <= i < c.nullifiers.len() && c.nullifiers[i] == nullifier;
        let d = run(fresh_registry(), prefix + rest).circles[circle_id];
        assert(d.nullifiers[i] == nullifier);
    }
}

/// A cancelled circle stays exactly as the cancellation left it, whatever
/// calls follow: every later deposit, claim and cancellation on it is refused.
pub proof fn lemma_cancelled_circle_stays_closed(
    prefix: Seq<Call>,
    rest: Seq<Call>,
    circle_id: u64,
)
    requires
        run(fresh_registry(), prefix).lookup(circle_id) matches Some(c) && c.cancelled,
    ensures
        run(fresh_registry(), prefix + rest).lookup(circle_id) == run(
            fresh_registry(),
            prefix,
        ).lookup(circle_id),
    decreases rest.len(),
{
    if rest.len() == 0 {
        assert(prefix + rest =~= prefix);
    } else {
        lemma_cancelled_circle_stays_closed(prefix, rest.drop_last(), circle_id);
        lemma_run_split(fresh_registry(), prefix, rest);
        let s = run(fresh_registry(), prefix + rest.drop_last());
        lemma_run_consistent(prefix + rest.drop_last());
        lemma_apply_on_stored(s, rest.last(), circle_id);
    }
}

/// The circle after a deposit from each of `froms`, one after the other, or
/// the first refusal.
pub open spec fn fund_each(c: CircleView, froms: Seq<Address>) -> Result<CircleView, Error>
    decreases froms.len(),
{
    if froms.len() == 0 {
        Ok(c)
    } else {
        match fund_each(c, froms.drop_last()) {
            Ok(d) => fund_result(Some(d), froms.last()),
            Err(e) => Err(e),
        }
    }
}

proof fn lemma_fund_each_records(c: CircleView, froms: Seq<Address>)
    requires
        !c.cancelled,
        c.pot == 0,
        c.contributors.len() == 0,
        fund_each(c, froms) is Ok,
    ensures
        fund_each(c, froms)->Ok_0.pot == c.contribution * froms.len(),
        fund_each(c, froms)->Ok_0 == (CircleView {
            pot: fund_each(c, froms)->Ok_0.pot,
            contributors: froms,
            ..c
        }),
    decreases froms.len(),
{
    if froms.len() == 0 {
        assert(c.contribution * 0 == 0) by (nonlinear_arith);
        assert(c.contributors =~= froms);
    } else {
        let prev = froms.drop_last();
        if fund_each(c, prev) is Err {
            assert(fund_each(c, froms) is Err);
        }
        lemma_fund_each_records(c, prev);
        let d = fund_each(c, prev)->Ok_0;
        assert(fund_each(c, froms) == fund_result(Some(d), froms.last()));
        let n = froms.len() as int;
        assert(c.contribution * (n - 1) + c.contribution == c.contribution * n)
            by (nonlinear_arith);
        assert(prev.push(froms.last()) =~= froms);
    }
}

/// Cancelling undoes a round's deposits. When a round starts empty and the
/// deposits from `froms` all go through, cancelling refunds exactly `froms`,
/// in the order they deposited, one contribution each, which is what each
/// deposit took; an address that deposited `j` times is refunded `j` times.
/// The circle is left as it was before the deposits, but closed.
pub proof fn lemma_cancel_undoes_round_deposits(c: CircleView, froms: Seq<Address>)
    requires
        !c.cancelled,
        c.pot == 0,
        c.contributors.len() == 0,
        fund_each(c, froms) is Ok,
    ensures
        fund_each(c, froms)->Ok_0.pot == c.contribution * froms.len(),
        cancel_result(Some(fund_each(c, froms)->Ok_0)) == Ok::<
            (CircleView, Seq<Address>, i128),
            Error,
        >((CircleView { cancelled: true, ..c }, froms, c.contribution)),
{
    lemma_fund_each_records(c, froms);
    assert(c.contributors =~= Seq::<Address>::empty());
    let funded = fund_each(c, froms)->Ok_0;
    assert((CircleView { pot: 0, cancelled: true, contributors: Seq::empty(), ..funded }) =~= (
    CircleView { cancelled: true, ..c }));
}

} // verus!
