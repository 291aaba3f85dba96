//! Blocks: the batch of raw signed transactions coming in, the accepted
//! (transaction, intermediate-state-root) pairs going out, and the
//! fixed-size data-availability shares they pack into.
use vstd::prelude::*;
use crate::errors::EasyFraudError;
use crate::state::{
    same_identity,
    spec_apply,
    spec_apply_diffs,
    spec_apply_root,
    spec_accepts,
    diffs_view,
    DiffView,
    State,
};
use crate::transaction::{spec_decode_stx, spec_sig_ok, SignedTransaction};
use crate::tree::{lemma_submap_trans, root_view, tree_contents};
use crate::utils::append_bytes;

verus! {

/// An accepted transaction: its original 136 raw bytes paired with the
/// 32-byte intermediate state root its application produced. Encodes to
/// exactly 168 bytes: signed_transaction(136) | root(32).
#[derive(Debug)]
pub struct SignedTxnISRPair(pub Vec<u8>, pub Vec<u8>);

/// The mathematical value of a `SignedTxnISRPair`.
pub struct PairView {
    pub stx: Seq<u8>,
    pub isr: Seq<u8>,
}

impl View for SignedTxnISRPair {
    type V = PairView;

    open spec fn view(&self) -> PairView {
        PairView { stx: self.0@, isr: self.1@ }
    }
}

pub open spec fn pair_view_wf(p: PairView) -> bool {
    &&& p.stx.len() == 136
    &&& p.isr.len() == 32
}

/// The 168-byte encoding of an accepted pair.
pub open spec fn spec_pair_bytes(p: PairView) -> Seq<u8> {
    p.stx + p.isr
}

/// The accepted pair a 168-byte string decodes to.
pub open spec fn spec_decode_pair(b: Seq<u8>) -> PairView {
    PairView { stx: b.subrange(0, 136), isr: b.subrange(136, 168) }
}

/// Encoding then decoding a well-formed pair is the identity.
pub proof fn lemma_pair_roundtrip(p: PairView)
    requires
        pair_view_wf(p),
    ensures
        spec_pair_bytes(p).len() == 168,
        spec_decode_pair(spec_pair_bytes(p)) == p,
{
    let b = spec_pair_bytes(p);
    assert(b.subrange(0, 136) =~= p.stx);
    assert(b.subrange(136, 168) =~= p.isr);
}

/// Decoding then re-encoding any 168-byte string is the identity.
pub proof fn lemma_pair_bytes_roundtrip(b: Seq<u8>)
    requires
        b.len() == 168,
    ensures
        spec_pair_bytes(spec_decode_pair(b)) == b,
{
    assert(spec_pair_bytes(spec_decode_pair(b)) =~= b);
}

impl SignedTxnISRPair {
    pub open spec fn wf(&self) -> bool {
        pair_view_wf(self@)
    }

    /// Encodes to exactly 168 bytes: transaction bytes | root.
    pub fn serialize(&self) -> (r: Vec<u8>)
        requires
            self.wf(),
        ensures
            r@ == spec_pair_bytes(self@),
            r@.len() == 168,
    {
        let mut buf: Vec<u8> = Vec::new();
        append_bytes(&mut buf, self.0.as_slice());
        append_bytes(&mut buf, self.1.as_slice());
        proof {
            assert(buf@ =~= spec_pair_bytes(self@));
        }
        buf
    }

    /// Decodes 168 bytes into an accepted pair; any other length is
    /// refused.
    pub fn deserialize(data: &[u8]) -> (r: Result<SignedTxnISRPair, EasyFraudError>)
        ensures
            (match r {
                Ok(p) => data@.len() == 168 && p@ == spec_decode_pair(data@) && p.wf(),
                Err(e) => data@.len() != 168 && e == EasyFraudError::SerializePairsError,
            }),
    {
        SignedTxnISRPair::from_slice(data)
    }

    /// Decodes an accepted pair out of a byte slice, refusing any slice
    /// that is not exactly one encoded pair.
    pub fn from_slice(data: &[u8]) -> (r: Result<SignedTxnISRPair, EasyFraudError>)
        ensures
            (match r {
                Ok(p) => data@.len() == 168 && p@ == spec_decode_pair(data@) && p.wf(),
                Err(e) => data@.len() != 168 && e == EasyFraudError::SerializePairsError,
            }),
    {
        if data.len() != 168 {
            return Err(EasyFraudError::SerializePairsError);
        }
        let stx = vstd::slice::slice_to_vec(vstd::slice::slice_subrange(data, 0, 136));
        let isr = vstd::slice::slice_to_vec(vstd::slice::slice_subrange(data, 136, 168));
        Ok(SignedTxnISRPair(stx, isr))
    }
}

/// The block header: the app hash the batch left behind (`None` only
/// before genesis).
#[derive(Debug)]
pub struct Header {
    pub apphash: Option<Vec<u8>>,
}

/// A processed block: the final root and the accepted pairs, in the
/// order they were applied.
#[derive(Debug)]
pub struct OutgoingBlock {
    pub header: Header,
    pub pairs: Vec<SignedTxnISRPair>,
}

/// A batch of raw signed-transaction byte strings, exactly as the
/// consensus runtime delivered them.
pub struct IncomingBlock {
    pub signed_transactions: Vec<Vec<u8>>,
}

/// A ledger as mathematics: the root and the balances it denotes.
pub struct LedgerV {
    pub root: Option<Seq<u8>>,
    pub bals: Map<Seq<u8>, Seq<u8>>,
}

/// Whether a raw batch entry is structurally a signed transaction whose
/// signature verifies: the part of acceptance that depends on the bytes
/// alone, never on the ledger.
pub open spec fn raw_valid(b: Seq<u8>) -> bool {
    &&& b.len() == 136
    &&& spec_sig_ok(spec_decode_stx(b))
}

/// Whether the ledger `l` accepts the raw batch entry `b`.
pub open spec fn raw_accepts(l: LedgerV, b: Seq<u8>) -> bool {
    &&& b.len() == 136
    &&& spec_accepts(l.bals, spec_decode_stx(b))
}

/// The ledger after one raw batch entry: applied if accepted, untouched
/// otherwise.
pub open spec fn raw_step(l: LedgerV, b: Seq<u8>) -> LedgerV {
    if raw_accepts(l, b) {
        LedgerV {
            root: Some(spec_apply_root(l.root, l.bals, spec_decode_stx(b))),
            bals: spec_apply(l.bals, spec_decode_stx(b)),
        }
    } else {
        l
    }
}

/// The outcome of running a batch: the final ledger, the accepted
/// pairs in application order, and the undo-log records appended.
pub struct RunOut {
    pub led: LedgerV,
    pub pairs: Seq<PairView>,
    pub diffs: Seq<DiffView>,
}

/// Running a batch, strictly in order: every entry sees the ledger the
/// previous one left, a rejected entry changes nothing, an accepted one
/// is applied and emits its pair and two undo records.
pub open spec fn spec_run(l: LedgerV, txs: Seq<Seq<u8>>) -> RunOut
    decreases txs.len(),
{
    if txs.len() == 0 {
        RunOut { led: l, pairs: Seq::empty(), diffs: Seq::empty() }
    } else {
        let b = txs[0];
        let rest = spec_run(raw_step(l, b), txs.skip(1));
        if raw_accepts(l, b) {
            RunOut {
                led: rest.led,
                pairs: seq![
                    PairView { stx: b, isr: spec_apply_root(l.root, l.bals, spec_decode_stx(b)) },
                ] + rest.pairs,
                diffs: spec_apply_diffs(l.bals, spec_decode_stx(b)) + rest.diffs,
            }
        } else {
            rest
        }
    }
}

/// A batch of raw byte strings as a sequence of byte sequences.
pub open spec fn raw_views(s: Seq<Vec<u8>>) -> Seq<Seq<u8>> {
    s.map_values(|v: Vec<u8>| v@)
}

impl IncomingBlock {
    /// Drives the ledger once per raw entry, in batch order: entries
    /// that do not decode or that the ledger rejects are skipped
    /// silently, accepted ones append their (bytes, intermediate state
    /// root) pair. The block's header is the root the whole batch left
    /// behind. One bad transaction never aborts the batch; only a store
    /// fault does, and it propagates.
    pub fn process(&self, state: &mut State) -> (r: Result<OutgoingBlock, EasyFraudError>)
        requires
            old(state).wf(),
        ensures
            final(state).wf(),
            same_identity(*old(state), *final(state)),
            final(state).current_block == old(state).current_block,
            root_view(final(state).volatile_root) == root_view(old(state).volatile_root),
            tree_contents(old(state).tree).submap_of(tree_contents(final(state).tree)),
            (match r {
                Ok(b) => {
                    let out = spec_run(
                        old(state).ledger_view(),
                        raw_views(self.signed_transactions@),
                    );
                    &&& final(state).ledger_view() == out.led
                    &&& pairs_view(b.pairs@) == out.pairs
                    &&& (forall|k: int| 0 <= k < b.pairs@.len() ==> (#[trigger] b.pairs@[k]).wf())
                    &&& root_view(b.header.apphash) == root_view(final(state).root)
                    &&& diffs_view(final(state).volatile_diffs@) == diffs_view(
                        old(state).volatile_diffs@,
                    ) + out.diffs
                },
                Err(e) => e == EasyFraudError::TreeGetError || e
                    == EasyFraudError::TreeInsertionError || e == EasyFraudError::CouldNotRevert,
            }),
            // a fault can only come out of the store, and only entries
            // that decode and carry a valid signature ever reach it: a
            // batch of nothing but invalid entries always comes back Ok
            (forall|k: int|
                0 <= k < self.signed_transactions@.len() ==> !raw_valid(
                    (#[trigger] self.signed_transactions@[k])@,
                )) ==> r is Ok,
    {
        let ghost l0 = old(state).ledger_view();
        let ghost raws = raw_views(self.signed_transactions@);
        let ghost target = spec_run(l0, raws);
        let mut accepted: Vec<SignedTxnISRPair> = Vec::new();
        let count = self.signed_transactions.len();
        let mut i: usize = 0;
        proof {
            assert(raws.skip(0) =~= raws);
            assert(diffs_view(old(state).volatile_diffs@) + Seq::<DiffView>::empty() =~= diffs_view(
                old(state).volatile_diffs@,
            ));
            assert(tree_contents(old(state).tree).submap_of(tree_contents(old(state).tree)));
        }
        while i < count
            invariant
                old(state).wf(),
                state.wf(),
                count == self.signed_transactions@.len(),
                raws == raw_views(self.signed_transactions@),
                raws.len() == count,
                target == spec_run(l0, raws),
                l0 == old(state).ledger_view(),
                i <= count,
                same_identity(*old(state), *state),
                state.current_block == old(state).current_block,
                root_view(state.volatile_root) == root_view(old(state).volatile_root),
                tree_contents(old(state).tree).submap_of(tree_contents(state.tree)),
                spec_run(state.ledger_view(), raws.skip(i as int)).led == target.led,
                pairs_view(accepted@) + spec_run(state.ledger_view(), raws.skip(i as int)).pairs
                    == target.pairs,
                diffs_view(state.volatile_diffs@) + spec_run(
                    state.ledger_view(),
                    raws.skip(i as int),
                ).diffs == diffs_view(old(state).volatile_diffs@) + target.diffs,
                forall|k: int| 0 <= k < accepted@.len() ==> (#[trigger] accepted@[k]).wf(),
            decreases count - i,
        {
            let ghost pre_led = state.ledger_view();
            let ghost t_pre = state.tree;
            proof {
                assert(raws.skip(i as int)[0] == raws[i as int]);
                assert(raws.skip(i as int).skip(1) =~= raws.skip(i as int + 1));
                assert(raws[i as int] == self.signed_transactions@[i as int]@);
            }
            let raw = &self.signed_transactions[i];
            match SignedTransaction::deserialize(raw.as_slice()) {
                Ok(stx) => {
                    match state.verify_and_run_transaction(&stx) {
                        Ok(Some(isr)) => {
                            let pair = SignedTxnISRPair(
                                vstd::slice::slice_to_vec(raw.as_slice()),
                                isr,
                            );
                            accepted.push(pair);
                            proof {
                                lemma_submap_trans(old(state).tree, t_pre, state.tree);
                                assert(state.ledger_view() == raw_step(pre_led, raws[i as int]));
                                assert(pairs_view(accepted@) =~= pairs_view(accepted@.drop_last())
                                    + seq![
                                    PairView {
                                        stx: raws[i as int],
                                        isr: spec_apply_root(
                                            pre_led.root,
                                            pre_led.bals,
                                            spec_decode_stx(raws[i as int]),
                                        ),
                                    },
                                ]);
                                assert(pairs_view(accepted@) + spec_run(
                                    state.ledger_view(),
                                    raws.skip(i as int + 1),
                                ).pairs =~= target.pairs);
                                assert(diffs_view(state.volatile_diffs@) + spec_run(
                                    state.ledger_view(),
                                    raws.skip(i as int + 1),
                                ).diffs =~= diffs_view(old(state).volatile_diffs@) + target.diffs);
                            }
                        },
                        Ok(None) => {
                            proof {
                                lemma_submap_trans(old(state).tree, t_pre, state.tree);
                                assert(!raw_accepts(pre_led, raws[i as int]));
                                assert(state.ledger_view() == pre_led);
                            }
                        },
                        Err(e) => {
                            proof {
                                lemma_submap_trans(old(state).tree, t_pre, state.tree);
                                // the fault came out of the store, so
                                // this entry had passed the pure checks
                                assert(raw_valid(self.signed_transactions@[i as int]@));
                            }
                            return Err(e);
                        },
                    }
                },
                Err(_) => {
                    proof {
                        assert(!raw_accepts(pre_led, raws[i as int]));
                    }
                },
            }
            i += 1;
        }
        proof {
            assert(raws.skip(count as int) =~= Seq::<Seq<u8>>::empty());
            assert(pairs_view(accepted@) + Seq::<PairView>::empty() =~= pairs_view(accepted@));
            assert(diffs_view(state.volatile_diffs@) + Seq::<DiffView>::empty() =~= diffs_view(
                state.volatile_diffs@,
            ));
        }
        let apphash = match &state.root {
            None => None,
            Some(h) => Some(vstd::slice::slice_to_vec(h.as_slice())),
        };
        Ok(OutgoingBlock { header: Header { apphash }, pairs: accepted })
    }
}

/// A fixed 512-byte data-availability share: three encoded accepted
/// pairs and 8 reserved zero bytes.
pub struct Share {
    pub data: Vec<u8>,
}

/// The 512 bytes of the share packing pairs `3*g`, `3*g+1`, `3*g+2`.
pub open spec fn spec_share_bytes(pairs: Seq<PairView>, g: int) -> Seq<u8> {
    spec_pair_bytes(pairs[3 * g]) + spec_pair_bytes(pairs[3 * g + 1]) + spec_pair_bytes(
        pairs[3 * g + 2],
    ) + Seq::new(8, |j: int| 0u8)
}

/// The accepted pairs as a sequence of mathematical values.
pub open spec fn pairs_view(pairs: Seq<SignedTxnISRPair>) -> Seq<PairView> {
    pairs.map_values(|p: SignedTxnISRPair| p@)
}

/// Packs accepted pairs into 512-byte data-availability shares: each
/// run of three consecutive pairs, in order, becomes one share; a
/// trailing run of one or two pairs is dropped, never padded into a
/// partial share.
pub fn pairs_into_blob(pairs: &Vec<SignedTxnISRPair>) -> (r: Vec<Share>)
    requires
        forall|i: int| 0 <= i < pairs@.len() ==> (#[trigger] pairs@[i]).wf(),
    ensures
        r@.len() == pairs@.len() / 3,
        forall|g: int| 0 <= g < r@.len() ==> (#[trigger] r@[g]).data@ == spec_share_bytes(
            pairs_view(pairs@),
            g,
        ),
        forall|g: int| 0 <= g < r@.len() ==> (#[trigger] r@[g]).data@.len() == 512,
{
    let mut result: Vec<Share> = Vec::new();
    let mut i: usize = 0;
    while pairs.len() - i >= 3
        invariant
            forall|k: int| 0 <= k < pairs@.len() ==> (#[trigger] pairs@[k]).wf(),
            i % 3 == 0,
            i <= pairs@.len(),
            result@.len() == i / 3,
            forall|g: int| 0 <= g < result@.len() ==> (#[trigger] result@[g]).data@
                == spec_share_bytes(pairs_view(pairs@), g),
            forall|g: int| 0 <= g < result@.len() ==> (#[trigger] result@[g]).data@.len() == 512,
        decreases pairs@.len() - i,
    {
        let mut buf: Vec<u8> = Vec::new();
        let first = pairs[i].serialize();
        append_bytes(&mut buf, first.as_slice());
        let second = pairs[i + 1].serialize();
        append_bytes(&mut buf, second.as_slice());
        let third = pairs[i + 2].serialize();
        append_bytes(&mut buf, third.as_slice());
        let mut j: usize = 0;
        while j < 8
            invariant
                j <= 8,
                i as int + 3 <= pairs@.len(),
                buf@ =~= spec_pair_bytes(pairs@[i as int]@) + spec_pair_bytes(
                    pairs@[i as int + 1]@,
                ) + spec_pair_bytes(pairs@[i as int + 2]@) + Seq::new(j as nat, |k: int| 0u8),
            decreases 8 - j,
        {
            buf.push(0u8);
            j += 1;
        }
        proof {
            assert(buf@ =~= spec_share_bytes(pairs_view(pairs@), i as int / 3));
        }
        result.push(Share { data: buf });
        i += 3;
    }
    proof {
        assert(result@.len() == pairs@.len() / 3);
    }
    result
}

} // verus!
