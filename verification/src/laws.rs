//! The laws of the engine, proved once and for all: transfers conserve
//! the total of all balances, an accepted transfer always moves the
//! root, and entries that fail verification never influence a batch.
use vstd::prelude::*;
use vstd::set::fold::{is_fun_commutative, lemma_fold_empty, lemma_fold_insert};
use crate::block::{raw_accepts, raw_step, raw_valid, spec_run, LedgerV};
use crate::state::{recipient_balance, sender_balance, spec_accepts, spec_apply};
use crate::transaction::{spec_decode_stx, spec_decode_tx, StxView};
use crate::tree::{map_at, root_known};
use crate::utils::{lemma_leaf_roundtrip, spec_leaf, spec_leaf_value};

verus! {

/// The sum of the balances that the keys of `s` hold in `m`.
pub open spec fn sum_over(s: Set<Seq<u8>>, m: Map<Seq<u8>, Seq<u8>>) -> int {
    s.fold(0, |acc: int, k: Seq<u8>| acc + spec_leaf_value(m[k]) as int)
}

/// The total of all balances a mapping holds.
pub open spec fn sum_balances(m: Map<Seq<u8>, Seq<u8>>) -> int {
    sum_over(m.dom(), m)
}

proof fn lemma_sum_fun_commutative(m: Map<Seq<u8>, Seq<u8>>)
    ensures
        is_fun_commutative(|acc: int, k: Seq<u8>| acc + spec_leaf_value(m[k]) as int),
{
}

/// Adding a key not yet counted adds exactly its balance.
proof fn lemma_sum_insert(s: Set<Seq<u8>>, m: Map<Seq<u8>, Seq<u8>>, k: Seq<u8>)
    requires
        s.finite(),
        !s.contains(k),
    ensures
        sum_over(s.insert(k), m) == sum_over(s, m) + spec_leaf_value(m[k]) as int,
{
    lemma_sum_fun_commutative(m);
    lemma_fold_insert(s, 0, |acc: int, key: Seq<u8>| acc + spec_leaf_value(m[key]) as int, k);
}

/// Taking a counted key out subtracts exactly its balance.
proof fn lemma_sum_remove(s: Set<Seq<u8>>, m: Map<Seq<u8>, Seq<u8>>, k: Seq<u8>)
    requires
        s.finite(),
        s.contains(k),
    ensures
        sum_over(s, m) == sum_over(s.remove(k), m) + spec_leaf_value(m[k]) as int,
{
    assert(s.remove(k).insert(k) =~= s);
    lemma_sum_insert(s.remove(k), m, k);
}

/// Two mappings that agree on every counted key sum alike.
proof fn lemma_sum_congruence(s: Set<Seq<u8>>, m1: Map<Seq<u8>, Seq<u8>>, m2: Map<Seq<u8>, Seq<u8>>)
    requires
        s.finite(),
        forall|k: Seq<u8>| #[trigger] s.contains(k) ==> m1[k] == m2[k],
    ensures
        sum_over(s, m1) == sum_over(s, m2),
    decreases s.len(),
{
    if s.len() == 0 {
        assert(s =~= Set::<Seq<u8>>::empty());
        lemma_sum_fun_commutative(m1);
        lemma_sum_fun_commutative(m2);
        lemma_fold_empty(0, |acc: int, k: Seq<u8>| acc + spec_leaf_value(m1[k]) as int);
        lemma_fold_empty(0, |acc: int, k: Seq<u8>| acc + spec_leaf_value(m2[k]) as int);
    } else {
        let k = s.choose();
        assert(s.contains(k));
        lemma_sum_remove(s, m1, k);
        lemma_sum_remove(s, m2, k);
        lemma_sum_congruence(s.remove(k), m1, m2);
    }
}

/// Conservation: an accepted transfer leaves the total of all balances
/// exactly as it was — the sender loses precisely what the recipient
/// gains. Acceptance guarantees the two accounts are distinct, so the
/// credit can never land on the debited leaf.
pub proof fn lemma_transfer_conserves(m: Map<Seq<u8>, Seq<u8>>, s: StxView)
    requires
        m.dom().finite(),
        spec_accepts(m, s),
    ensures
        sum_balances(spec_apply(m, s)) == sum_balances(m),
{
    let t = spec_decode_tx(s.tx);
    let sb = sender_balance(m, t);
    let rb = recipient_balance(m, t);
    let m2 = spec_apply(m, s);
    lemma_leaf_roundtrip((sb - t.amount) as u64);
    lemma_leaf_roundtrip((rb + t.amount) as u64);
    assert(m2[t.sender] == spec_leaf((sb - t.amount) as u64));
    assert(m2[t.recipient] == spec_leaf((rb + t.amount) as u64));
    if m.contains_key(t.recipient) {
        assert(m2.dom() =~= m.dom());
        let d0 = m.dom().remove(t.sender).remove(t.recipient);
        lemma_sum_remove(m.dom(), m2, t.sender);
        lemma_sum_remove(m.dom().remove(t.sender), m2, t.recipient);
        lemma_sum_remove(m.dom(), m, t.sender);
        lemma_sum_remove(m.dom().remove(t.sender), m, t.recipient);
        lemma_sum_congruence(d0, m2, m);
    } else {
        assert(m2.dom() =~= m.dom().insert(t.recipient));
        lemma_sum_insert(m.dom(), m2, t.recipient);
        lemma_sum_remove(m.dom(), m2, t.sender);
        lemma_sum_remove(m.dom(), m, t.sender);
        lemma_sum_congruence(m.dom().remove(t.sender), m2, m);
    }
}

/// An accepted transfer never leaves the balances as they were: the
/// sender's leaf is strictly debited.
pub proof fn lemma_accepted_changes_balances(m: Map<Seq<u8>, Seq<u8>>, s: StxView)
    requires
        spec_accepts(m, s),
    ensures
        spec_apply(m, s) != m,
{
    let t = spec_decode_tx(s.tx);
    let sb = sender_balance(m, t);
    let m2 = spec_apply(m, s);
    lemma_leaf_roundtrip((sb - t.amount) as u64);
    lemma_leaf_roundtrip((recipient_balance(m, t) + t.amount) as u64);
    assert(spec_leaf_value(m2[t.sender]) == sb - t.amount);
    assert(spec_leaf_value(m[t.sender]) == sb);
    assert(m2[t.sender] != m[t.sender]);
}

/// Whenever at least one transaction was accepted against a root, the
/// new root differs from the old one: the mapping a root denotes is a
/// function of the root, and the mapping changed.
pub proof fn lemma_accepted_changes_root(
    t: monotree::Monotree,
    r1: Option<Seq<u8>>,
    r2: Option<Seq<u8>>,
    s: StxView,
)
    requires
        root_known(t, r1),
        root_known(t, r2),
        spec_accepts(map_at(t, r1), s),
        map_at(t, r2) == spec_apply(map_at(t, r1), s),
    ensures
        r1 != r2,
{
    if r1 == r2 {
        lemma_accepted_changes_balances(map_at(t, r1), s);
    }
}

/// The entries of a batch that are structurally signed transactions
/// with valid signatures, in their original order.
pub open spec fn valid_txs(txs: Seq<Seq<u8>>) -> Seq<Seq<u8>>
    decreases txs.len(),
{
    if txs.len() == 0 {
        Seq::empty()
    } else if raw_valid(txs[0]) {
        seq![txs[0]] + valid_txs(txs.skip(1))
    } else {
        valid_txs(txs.skip(1))
    }
}

/// Rejection does not corrupt state: running a batch gives exactly the
/// ledger, pairs and undo records of running only its valid entries in
/// the same order — entries that fail decoding or signature
/// verification leave no trace.
pub proof fn lemma_run_ignores_invalid(l: LedgerV, txs: Seq<Seq<u8>>)
    ensures
        spec_run(l, valid_txs(txs)) == spec_run(l, txs),
    decreases txs.len(),
{
    if txs.len() == 0 {
        assert(valid_txs(txs) =~= txs);
    } else {
        let b = txs[0];
        if raw_valid(b) {
            let v = valid_txs(txs.skip(1));
            assert(valid_txs(txs) == seq![b] + v);
            assert((seq![b] + v)[0] == b);
            assert((seq![b] + v).skip(1) =~= v);
            lemma_run_ignores_invalid(raw_step(l, b), txs.skip(1));
        } else {
            assert(!raw_accepts(l, b));
            lemma_run_ignores_invalid(l, txs.skip(1));
        }
    }
}

/// Conservation over a whole batch: running any sequence of raw
/// entries leaves the total of all balances untouched, however many
/// entries are accepted — every accepted transfer conserves the total
/// and rejected entries change nothing.
pub proof fn lemma_run_conserves(l: LedgerV, txs: Seq<Seq<u8>>)
    requires
        l.bals.dom().finite(),
    ensures
        sum_balances(spec_run(l, txs).led.bals) == sum_balances(l.bals),
        spec_run(l, txs).led.bals.dom().finite(),
    decreases txs.len(),
{
    if txs.len() == 0 {
    } else {
        let b = txs[0];
        let l1 = raw_step(l, b);
        if raw_accepts(l, b) {
            lemma_transfer_conserves(l.bals, spec_decode_stx(b));
            let t = spec_decode_tx(spec_decode_stx(b).tx);
            assert(l1.bals.dom() =~= l.bals.dom().insert(t.sender).insert(t.recipient));
        }
        lemma_run_conserves(l1, txs.skip(1));
    }
}

} // verus!
