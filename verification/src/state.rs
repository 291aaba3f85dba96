//! The ledger state machine: genesis initialization, per-transaction
//! verify-and-apply with an undo log, and bulk revert of an in-flight
//! batch, all over the Merkle-authenticated account store.
use vstd::prelude::*;
use vstd::bytes::{spec_u64_from_le_bytes, spec_u64_to_le_bytes, u64_from_le_bytes};
use crate::block::{OutgoingBlock, SignedTxnISRPair};
use crate::errors::EasyFraudError;
use crate::transaction::{
    spec_decode_tx,
    spec_sig_ok,
    stx_view_wf,
    SignedTransaction,
    StxView,
    TxView,
};
use crate::tree::{
    balances_wf,
    lemma_map_at_preserved,
    lemma_submap_trans,
    map_at,
    root_after_insert,
    root_known,
    root_view,
    root_wf,
    tree_contents,
    tree_get,
    tree_insert,
    tree_new,
    tree_remove,
};
use crate::utils::{append_bytes, bytes_eq, leaf_to_num, num_to_leaf, spec_leaf, spec_leaf_value};

verus! {

/// A genesis record: a 32-byte account identifier and its opening
/// balance. Encodes to exactly 40 bytes: pubkey(32) | balance(8, LE).
#[derive(Debug)]
pub struct AccountBalancePair {
    pub pubkey: Vec<u8>,
    pub balance: u64,
}

/// The mathematical value of an `AccountBalancePair`.
pub struct AbpView {
    pub pubkey: Seq<u8>,
    pub balance: u64,
}

impl View for AccountBalancePair {
    type V = AbpView;

    open spec fn view(&self) -> AbpView {
        AbpView { pubkey: self.pubkey@, balance: self.balance }
    }
}

pub open spec fn abp_view_wf(a: AbpView) -> bool {
    a.pubkey.len() == 32
}

/// The 40-byte encoding of a genesis record.
pub open spec fn spec_abp_bytes(a: AbpView) -> Seq<u8> {
    a.pubkey + spec_u64_to_le_bytes(a.balance)
}

/// The genesis record a 40-byte string decodes to.
pub open spec fn spec_decode_abp(b: Seq<u8>) -> AbpView {
    AbpView { pubkey: b.subrange(0, 32), balance: spec_u64_from_le_bytes(b.subrange(32, 40)) }
}

/// Encoding then decoding a well-formed genesis record is the identity.
pub proof fn lemma_abp_roundtrip(a: AbpView)
    requires
        abp_view_wf(a),
    ensures
        spec_abp_bytes(a).len() == 40,
        spec_decode_abp(spec_abp_bytes(a)) == a,
{
    vstd::bytes::lemma_auto_spec_u64_to_from_le_bytes();
    let b = spec_abp_bytes(a);
    assert(b.subrange(0, 32) =~= a.pubkey);
    assert(b.subrange(32, 40) =~= spec_u64_to_le_bytes(a.balance));
}

impl AccountBalancePair {
    pub open spec fn wf(&self) -> bool {
        abp_view_wf(self@)
    }

    /// Encodes to exactly 40 bytes: pubkey | balance(LE).
    pub fn serialize(&self) -> (r: Vec<u8>)
        requires
            self.wf(),
        ensures
            r@ == spec_abp_bytes(self@),
            r@.len() == 40,
    {
        let mut buf: Vec<u8> = Vec::new();
        append_bytes(&mut buf, self.pubkey.as_slice());
        let balance_bytes = vstd::bytes::u64_to_le_bytes(self.balance);
        append_bytes(&mut buf, balance_bytes.as_slice());
        proof {
            assert(buf@ =~= spec_abp_bytes(self@));
        }
        buf
    }

    /// Decodes 40 bytes into a genesis record; any other length is
    /// refused.
    pub fn deserialize(data: &[u8]) -> (r: Result<AccountBalancePair, EasyFraudError>)
        ensures
            (match r {
                Ok(a) => data@.len() == 40 && a@ == spec_decode_abp(data@) && a.wf(),
                Err(e) => data@.len() != 40 && e
                    == EasyFraudError::GenesisAccountDeserialization,
            }),
    {
        if data.len() != 40 {
            return Err(EasyFraudError::GenesisAccountDeserialization);
        }
        let pubkey = vstd::slice::slice_to_vec(vstd::slice::slice_subrange(data, 0, 32));
        let balance = u64_from_le_bytes(vstd::slice::slice_subrange(data, 32, 40));
        Ok(AccountBalancePair { pubkey, balance })
    }
}

/// One undo-log record: the leaf an account held before a transfer
/// touched it, or `None` if the account did not exist yet.
#[derive(Debug)]
pub struct AccountBalanceLeafPair {
    pub pubkey: Vec<u8>,
    pub balance: Option<Vec<u8>>,
}

/// The mathematical value of an undo-log record.
pub struct DiffView {
    pub pubkey: Seq<u8>,
    pub balance: Option<Seq<u8>>,
}

impl View for AccountBalanceLeafPair {
    type V = DiffView;

    open spec fn view(&self) -> DiffView {
        DiffView {
            pubkey: self.pubkey@,
            balance: (match self.balance {
                None => None,
                Some(l) => Some(l@),
            }),
        }
    }
}

pub open spec fn diff_wf(d: DiffView) -> bool {
    &&& d.pubkey.len() == 32
    &&& (match d.balance {
        None => true,
        Some(l) => l.len() == 32,
    })
}

/// The undo log as a sequence of mathematical records.
pub open spec fn diffs_view(s: Seq<AccountBalanceLeafPair>) -> Seq<DiffView> {
    s.map_values(|d: AccountBalanceLeafPair| d@)
}

/// The consensus requests the core handles, carried as plain values;
/// the external runtime owns transport and framing.
pub struct RequestInitChain {
    pub chain_id: Vec<u8>,
    pub initial_height: u64,
    pub app_state_bytes: Vec<u8>,
}

pub struct RequestPrepareProposal {
    pub txs: Vec<Vec<u8>>,
}

pub struct RequestProcessProposal {
    pub txs: Vec<Vec<u8>>,
}

pub enum Request {
    InitChain(RequestInitChain),
    PrepareProposal(RequestPrepareProposal),
    ProcessProposal(RequestProcessProposal),
}

/// What the core hands back for each handled request.
#[derive(Debug)]
pub enum Response {
    InitChain { app_hash: Vec<u8> },
    PrepareProposal { txs: Vec<Vec<u8>> },
    ProcessProposal,
}

/// The ledger state: chain identity, height, the Merkle store with its
/// current root, and the in-flight undo log.
pub struct State {
    pub initialized: bool,
    pub chain_id: Vec<u8>,
    pub tree: monotree::Monotree,
    pub root: Option<Vec<u8>>,
    pub height: u64,
    pub current_block: Option<OutgoingBlock>,
    pub volatile_root: Option<Vec<u8>>,
    pub volatile_diffs: Vec<AccountBalanceLeafPair>,
}

impl State {
    /// The account balances the current root denotes.
    pub open spec fn bals(&self) -> Map<Seq<u8>, Seq<u8>> {
        map_at(self.tree, root_view(self.root))
    }

    /// The ledger as mathematics: the current root and the balances it
    /// denotes.
    pub open spec fn ledger_view(&self) -> crate::block::LedgerV {
        crate::block::LedgerV { root: root_view(self.root), bals: self.bals() }
    }

    /// Internal consistency: both roots are 32 bytes and known to the
    /// store, both mappings are well-formed, and every undo record is
    /// sized for replay.
    pub open spec fn wf(&self) -> bool {
        &&& root_wf(root_view(self.root))
        &&& root_known(self.tree, root_view(self.root))
        &&& root_wf(root_view(self.volatile_root))
        &&& root_known(self.tree, root_view(self.volatile_root))
        &&& balances_wf(self.bals())
        &&& balances_wf(map_at(self.tree, root_view(self.volatile_root)))
        &&& (forall|i: int| 0 <= i < self.volatile_diffs@.len() ==> diff_wf(
            #[trigger] self.volatile_diffs@[i]@,
        ))
    }

    /// A fresh, uninitialized ledger for one logical chain.
    pub fn new(chain_id: Vec<u8>) -> (s: State)
        ensures
            s.wf(),
            s.initialized == false,
            s.chain_id@ == chain_id@,
            s.root is None,
            s.height == 0,
            s.current_block is None,
            s.volatile_root is None,
            s.volatile_diffs@.len() == 0,
            s.bals() == Map::<Seq<u8>, Seq<u8>>::empty(),
    {
        State {
            initialized: false,
            chain_id,
            tree: tree_new(),
            root: None,
            height: 0,
            current_block: None,
            volatile_root: None,
            volatile_diffs: Vec::new(),
        }
    }
}

/// Chain identity, height and the initialized flag are untouched.
pub open spec fn same_identity(pre: State, post: State) -> bool {
    &&& post.initialized == pre.initialized
    &&& post.chain_id@ == pre.chain_id@
    &&& post.height == pre.height
}

/// Nothing the ledger exposes moved: root, balances, undo log and the
/// saved pre-batch root all read as before.
pub open spec fn ledger_unchanged(pre: State, post: State) -> bool {
    &&& root_view(post.root) == root_view(pre.root)
    &&& post.bals() == pre.bals()
    &&& post.volatile_diffs@ == pre.volatile_diffs@
    &&& root_view(post.volatile_root) == root_view(pre.volatile_root)
}

/// The balance the sender holds in `m`.
pub open spec fn sender_balance(m: Map<Seq<u8>, Seq<u8>>, t: TxView) -> u64 {
    spec_leaf_value(m[t.sender])
}

/// The balance the recipient holds in `m`; a first-seen recipient holds 0.
pub open spec fn recipient_balance(m: Map<Seq<u8>, Seq<u8>>, t: TxView) -> u64 {
    if m.contains_key(t.recipient) {
        spec_leaf_value(m[t.recipient])
    } else {
        0
    }
}

/// Whether the ledger at balances `m` accepts a signed transaction: the
/// signature verifies against the embedded bytes, the amount is
/// positive, the recipient is a different account than the sender — a
/// transfer from an account to itself would credit the pre-debit
/// balance and so create value — the sender exists and holds strictly
/// more than the amount, and the credited balance still fits in 64
/// bits.
pub open spec fn spec_accepts(m: Map<Seq<u8>, Seq<u8>>, s: StxView) -> bool {
    &&& stx_view_wf(s)
    &&& spec_sig_ok(s)
    &&& {
        let t = spec_decode_tx(s.tx);
        &&& t.amount > 0
        &&& t.sender != t.recipient
        &&& m.contains_key(t.sender)
        &&& sender_balance(m, t) > t.amount
        &&& recipient_balance(m, t) + t.amount <= u64::MAX
    }
}

/// The balances after an accepted transfer: the sender's leaf debited,
/// then the recipient's leaf credited.
pub open spec fn spec_apply(m: Map<Seq<u8>, Seq<u8>>, s: StxView) -> Map<Seq<u8>, Seq<u8>> {
    let t = spec_decode_tx(s.tx);
    m.insert(t.sender, spec_leaf((sender_balance(m, t) - t.amount) as u64)).insert(
        t.recipient,
        spec_leaf((recipient_balance(m, t) + t.amount) as u64),
    )
}

/// The root after an accepted transfer: the sender update is hashed in
/// first, the recipient update against the intermediate root.
pub open spec fn spec_apply_root(r: Option<Seq<u8>>, m: Map<Seq<u8>, Seq<u8>>, s: StxView) -> Seq<
    u8,
> {
    let t = spec_decode_tx(s.tx);
    root_after_insert(
        Some(root_after_insert(r, t.sender, spec_leaf((sender_balance(m, t) - t.amount) as u64))),
        t.recipient,
        spec_leaf((recipient_balance(m, t) + t.amount) as u64),
    )
}

/// The two undo-log records one accepted transfer appends: the sender's
/// prior leaf, then the recipient's prior leaf or absence.
pub open spec fn spec_apply_diffs(m: Map<Seq<u8>, Seq<u8>>, s: StxView) -> Seq<DiffView> {
    let t = spec_decode_tx(s.tx);
    seq![
        DiffView { pubkey: t.sender, balance: Some(m[t.sender]) },
        DiffView {
            pubkey: t.recipient,
            balance: (if m.contains_key(t.recipient) {
                Some(m[t.recipient])
            } else {
                None
            }),
        },
    ]
}

/// Everything `verify_and_run_transaction` promises, relating the state
/// before the call, the state after, the transaction and the outcome.
pub open spec fn apply_post(
    pre: State,
    post: State,
    stx: SignedTransaction,
    r: Result<Option<Vec<u8>>, EasyFraudError>,
) -> bool {
    &&& post.wf()
    &&& same_identity(pre, post)
    &&& post.current_block == pre.current_block
    &&& root_view(post.volatile_root) == root_view(pre.volatile_root)
    &&& tree_contents(pre.tree).submap_of(tree_contents(post.tree))
    &&& (match r {
        Ok(outcome) => (match outcome {
            Some(isr) => {
                &&& spec_accepts(pre.bals(), stx@)
                &&& isr@ == spec_apply_root(root_view(pre.root), pre.bals(), stx@)
                &&& root_view(post.root) == Some(isr@)
                &&& root_view(post.root) != root_view(pre.root)
                &&& post.bals() == spec_apply(pre.bals(), stx@)
                &&& diffs_view(post.volatile_diffs@) == diffs_view(pre.volatile_diffs@)
                    + spec_apply_diffs(pre.bals(), stx@)
            },
            None => !spec_accepts(pre.bals(), stx@) && ledger_unchanged(pre, post),
        }),
        Err(e) => {
            // a fault can only come out of the store, so a transaction
            // the pure checks already reject never reports one
            &&& spec_sig_ok(stx@)
            &&& spec_decode_tx(stx@.tx).amount > 0
            &&& spec_decode_tx(stx@.tx).sender != spec_decode_tx(stx@.tx).recipient
            &&& post.bals() == pre.bals()
            &&& post.volatile_diffs@ == pre.volatile_diffs@
            &&& root_view(post.volatile_root) == root_view(pre.volatile_root)
            &&& (e == EasyFraudError::TreeGetError || e == EasyFraudError::TreeInsertionError || e
                == EasyFraudError::CouldNotRevert)
            &&& ((e == EasyFraudError::TreeGetError || e == EasyFraudError::CouldNotRevert)
                ==> root_view(post.root) == root_view(pre.root))
        },
    })
}

impl State {
    /// Verifies one signed transaction against the current state and, if
    /// it is acceptable, applies it: debit the sender, credit the
    /// recipient, commit the new root, and append the two prior leaves
    /// to the undo log. A transaction the ledger merely rejects returns
    /// `Ok(None)` and leaves the state untouched; only a store fault is
    /// an error, and even then the balances the ledger exposes are
    /// unchanged. On acceptance the returned root is the transaction's
    /// intermediate state root.
    pub fn verify_and_run_transaction(&mut self, stx: &SignedTransaction) -> (r: Result<
        Option<Vec<u8>>,
        EasyFraudError,
    >)
        requires
            old(self).wf(),
            stx.wf(),
        ensures
            apply_post(*old(self), *final(self), *stx, r),
    {
        let txn = match stx.verify_and_deserialize() {
            Ok(t) => t,
            Err(_) => {
                return Ok(None);
            },
        };

        // the transfer must move a strictly positive amount
        if txn.amount == 0 {
            return Ok(None);
        }
        // a transfer from an account to itself would credit the
        // pre-debit balance and so create value: rejected
        if bytes_eq(txn.sender_pubkey.as_slice(), txn.recipient_pubkey.as_slice()) {
            return Ok(None);
        }

        let got_sender = match tree_get(&mut self.tree, &self.root, txn.sender_pubkey.as_slice()) {
            Ok(found) => found,
            Err(_) => {
                return Err(EasyFraudError::TreeGetError);
            },
        };
        // an uninitialized sender is a rejection, not a fault
        let old_sender_leaf = match got_sender {
            Some(leaf) => leaf,
            None => {
                return Ok(None);
            },
        };
        let old_sender_balance = leaf_to_num(old_sender_leaf.as_slice());

        let old_recipient_leaf = match tree_get(
            &mut self.tree,
            &self.root,
            txn.recipient_pubkey.as_slice(),
        ) {
            Ok(found) => found,
            Err(_) => {
                return Err(EasyFraudError::TreeGetError);
            },
        };
        let old_recipient_balance = match &old_recipient_leaf {
            Some(leaf) => leaf_to_num(leaf.as_slice()),
            None => 0,
        };

        // the sender must keep a strictly positive remainder
        if old_sender_balance <= txn.amount {
            return Ok(None);
        }
        // the credited balance must still fit in 64 bits
        if txn.amount > u64::MAX - old_recipient_balance {
            return Ok(None);
        }

        let new_sender_leaf = num_to_leaf(old_sender_balance - txn.amount);
        let new_recipient_leaf = num_to_leaf(old_recipient_balance + txn.amount);

        let ghost t_read = self.tree;
        let ghost pre_bals = old(self).bals();
        proof {
            assert(map_at(t_read, root_view(self.root)) == pre_bals);
            assert(spec_accepts(pre_bals, stx@));
        }

        let first_root = match tree_insert(
            &mut self.tree,
            &self.root,
            txn.sender_pubkey.as_slice(),
            new_sender_leaf.as_slice(),
        ) {
            Ok(nr) => nr,
            Err(_) => {
                proof {
                    lemma_map_at_preserved(t_read, self.tree, root_view(self.root));
                    lemma_map_at_preserved(t_read, self.tree, root_view(self.volatile_root));
                }
                return Err(EasyFraudError::TreeInsertionError);
            },
        };
        let ghost t_mid = self.tree;

        match tree_insert(
            &mut self.tree,
            &first_root,
            txn.recipient_pubkey.as_slice(),
            new_recipient_leaf.as_slice(),
        ) {
            Ok(updated_root) => {
                let isr = match updated_root {
                    Some(h) => h,
                    None => {
                        proof {
                            assert(false);
                        }
                        return Err(EasyFraudError::NoRoot);
                    },
                };
                self.root = Some(vstd::slice::slice_to_vec(isr.as_slice()));
                self.volatile_diffs.push(
                    AccountBalanceLeafPair {
                        pubkey: txn.sender_pubkey,
                        balance: Some(old_sender_leaf),
                    },
                );
                self.volatile_diffs.push(
                    AccountBalanceLeafPair {
                        pubkey: txn.recipient_pubkey,
                        balance: old_recipient_leaf,
                    },
                );
                proof {
                    lemma_submap_trans(t_read, t_mid, self.tree);
                    lemma_map_at_preserved(t_read, self.tree, root_view(self.volatile_root));
                    lemma_map_at_preserved(t_read, self.tree, root_view(old(self).root));
                    assert(self.bals() =~= spec_apply(pre_bals, stx@));
                    crate::laws::lemma_accepted_changes_root(
                        self.tree,
                        root_view(old(self).root),
                        root_view(self.root),
                        stx@,
                    );
                    assert(diffs_view(self.volatile_diffs@) =~= diffs_view(
                        old(self).volatile_diffs@,
                    ) + spec_apply_diffs(pre_bals, stx@));
                    let t = spec_decode_tx(stx@.tx);
                    crate::utils::lemma_leaf_roundtrip((sender_balance(pre_bals, t) - t.amount) as u64);
                    crate::utils::lemma_leaf_roundtrip(
                        (recipient_balance(pre_bals, t) + t.amount) as u64,
                    );
                    assert forall|k: Seq<u8>| #[trigger] self.bals().dom().contains(k) implies k.len()
                        == 32 && self.bals()[k].len() == 32 by {
                        if k != t.sender && k != t.recipient {
                            assert(pre_bals.dom().contains(k));
                            assert(self.bals()[k] == pre_bals[k]);
                        }
                    }
                    assert(self.bals().dom() =~= pre_bals.dom().insert(t.sender).insert(
                        t.recipient,
                    ));
                    assert(self.bals().dom().finite());
                    assert(balances_wf(self.bals()));
                }
                Ok(Some(isr))
            },
            Err(_) => {
                // the sender debit went in but the recipient credit
                // failed: undo the debit before reporting the fault, so
                // the tree never reflects half a transfer
                let ghost t_fail = self.tree;
                proof {
                    lemma_map_at_preserved(t_mid, t_fail, root_view(first_root));
                }
                match tree_insert(
                    &mut self.tree,
                    &first_root,
                    txn.sender_pubkey.as_slice(),
                    old_sender_leaf.as_slice(),
                ) {
                    Ok(reverted_root) => {
                        self.root = reverted_root;
                        proof {
                            lemma_submap_trans(t_read, t_mid, t_fail);
                            lemma_submap_trans(t_read, t_fail, self.tree);
                            lemma_map_at_preserved(
                                t_read,
                                self.tree,
                                root_view(self.volatile_root),
                            );
                            assert(self.bals() =~= pre_bals);
                        }
                        Err(EasyFraudError::TreeInsertionError)
                    },
                    Err(_) => {
                        proof {
                            lemma_submap_trans(t_read, t_mid, t_fail);
                            lemma_submap_trans(t_read, t_fail, self.tree);
                            lemma_map_at_preserved(t_read, self.tree, root_view(self.root));
                            lemma_map_at_preserved(
                                t_read,
                                self.tree,
                                root_view(self.volatile_root),
                            );
                        }
                        Err(EasyFraudError::CouldNotRevert)
                    },
                }
            },
        }
    }
}

/// The balances after inserting every 40-byte genesis record of
/// `records`, front to back.
pub open spec fn spec_genesis_map(m: Map<Seq<u8>, Seq<u8>>, records: Seq<u8>) -> Map<
    Seq<u8>,
    Seq<u8>,
>
    decreases records.len(),
{
    if records.len() < 40 {
        m
    } else {
        spec_genesis_map(
            m.insert(
                records.subrange(0, 32),
                spec_leaf(spec_u64_from_le_bytes(records.subrange(32, 40))),
            ),
            records.skip(40),
        )
    }
}

/// The root after inserting every 40-byte genesis record of `records`,
/// front to back.
pub open spec fn spec_genesis_root(r: Option<Seq<u8>>, records: Seq<u8>) -> Option<Seq<u8>>
    decreases records.len(),
{
    if records.len() < 40 {
        r
    } else {
        spec_genesis_root(
            Some(
                root_after_insert(
                    r,
                    records.subrange(0, 32),
                    spec_leaf(spec_u64_from_le_bytes(records.subrange(32, 40))),
                ),
            ),
            records.skip(40),
        )
    }
}

/// Genesis determinism: two empty ledgers initialized from identical
/// record bytes reach the same app hash and the same balances — the
/// outcome is a pure function of the inputs, with no hidden state.
pub proof fn lemma_genesis_deterministic(pre1: State, pre2: State, records: Seq<u8>)
    requires
        root_view(pre1.root) is None,
        root_view(pre2.root) is None,
    ensures
        spec_genesis_root(root_view(pre1.root), records) == spec_genesis_root(
            root_view(pre2.root),
            records,
        ),
        spec_genesis_map(pre1.bals(), records) == spec_genesis_map(pre2.bals(), records),
{
}

/// Everything `init_chain` promises, relating the state before the
/// call, the state after, the request and the outcome.
pub open spec fn init_post(
    pre: State,
    post: State,
    req: RequestInitChain,
    r: Result<Response, EasyFraudError>,
) -> bool {
    &&& post.wf()
    &&& post.chain_id@ == pre.chain_id@
    &&& post.current_block == pre.current_block
    &&& tree_contents(pre.tree).submap_of(tree_contents(post.tree))
    &&& (match r {
        Ok(resp) => {
            &&& req.chain_id@ == pre.chain_id@
            &&& req.initial_height == 1
            &&& req.app_state_bytes@.len() % 40 == 0
            &&& post.initialized == true
            &&& post.height == 1
            &&& post.volatile_diffs@.len() == 0
            &&& post.bals() == spec_genesis_map(pre.bals(), req.app_state_bytes@)
            &&& root_view(post.root) == spec_genesis_root(
                root_view(pre.root),
                req.app_state_bytes@,
            )
            &&& root_view(post.volatile_root) == root_view(post.root)
            &&& (match resp {
                Response::InitChain { app_hash } => root_view(post.root) == Some(app_hash@),
                _ => false,
            })
        },
        Err(e) => post.initialized == pre.initialized && (match e {
            EasyFraudError::ChainIDMismatch => {
                &&& req.chain_id@ != pre.chain_id@
                &&& post.height == pre.height
                &&& ledger_unchanged(pre, post)
            },
            EasyFraudError::InvalidGenesisHeight => {
                &&& req.chain_id@ == pre.chain_id@
                &&& req.initial_height != 1
                &&& post.height == pre.height
                &&& ledger_unchanged(pre, post)
            },
            EasyFraudError::GenesisAccountDeserialization => {
                &&& req.chain_id@ == pre.chain_id@
                &&& req.initial_height == 1
                &&& req.app_state_bytes@.len() % 40 != 0
                &&& post.height == pre.height
                &&& ledger_unchanged(pre, post)
            },
            EasyFraudError::TreeInsertionError => {
                &&& req.chain_id@ == pre.chain_id@
                &&& req.initial_height == 1
                &&& req.app_state_bytes@.len() % 40 == 0
                &&& req.app_state_bytes@.len() > 0
                &&& post.height == pre.height
                &&& post.volatile_diffs@ == pre.volatile_diffs@
                &&& root_view(post.volatile_root) == root_view(pre.volatile_root)
                &&& (exists|j: int|
                    0 <= j <= req.app_state_bytes@.len() && j % 40 == 0 && spec_genesis_map(
                        post.bals(),
                        #[trigger] req.app_state_bytes@.skip(j),
                    ) == spec_genesis_map(pre.bals(), req.app_state_bytes@) && spec_genesis_root(
                        root_view(post.root),
                        req.app_state_bytes@.skip(j),
                    ) == spec_genesis_root(root_view(pre.root), req.app_state_bytes@))
            },
            EasyFraudError::NullApphash => {
                &&& req.chain_id@ == pre.chain_id@
                &&& req.initial_height == 1
                &&& req.app_state_bytes@.len() == 0
                &&& root_view(pre.root) is None
                &&& post.height == 1
                &&& post.volatile_diffs@.len() == 0
                &&& root_view(post.root) is None
                &&& post.bals() == pre.bals()
                &&& root_view(post.volatile_root) == root_view(pre.volatile_root)
            },
            _ => false,
        }),
    })
}

impl State {
    /// Genesis initialization: checks the chain identifier and that the
    /// requested height is exactly 1, then inserts one padded balance
    /// leaf per 40-byte genesis record, sets the height, clears the
    /// undo log, marks the ledger initialized, and returns the
    /// resulting root as the app hash.
    pub fn init_chain(&mut self, req: RequestInitChain) -> (r: Result<Response, EasyFraudError>)
        requires
            old(self).wf(),
        ensures
            init_post(*old(self), *final(self), req, r),
    {
        proof {
            assert(tree_contents(old(self).tree).submap_of(tree_contents(old(self).tree)));
        }
        if !bytes_eq(req.chain_id.as_slice(), self.chain_id.as_slice()) {
            return Err(EasyFraudError::ChainIDMismatch);
        }
        if req.initial_height != 1 {
            return Err(EasyFraudError::InvalidGenesisHeight);
        }
        if req.app_state_bytes.len() % 40 != 0 {
            return Err(EasyFraudError::GenesisAccountDeserialization);
        }

        let n = req.app_state_bytes.len();
        let ghost bytes = req.app_state_bytes@;
        proof {
            assert(bytes.skip(0) =~= bytes);
        }
        let mut i: usize = 0;
        while i < n
            invariant
                n == bytes.len(),
                bytes == req.app_state_bytes@,
                req.chain_id@ == old(self).chain_id@,
                req.initial_height == 1,
                n % 40 == 0,
                i % 40 == 0,
                i <= n,
                self.wf(),
                self.chain_id@ == old(self).chain_id@,
                self.initialized == old(self).initialized,
                self.height == old(self).height,
                self.current_block == old(self).current_block,
                self.volatile_diffs@ == old(self).volatile_diffs@,
                root_view(self.volatile_root) == root_view(old(self).volatile_root),
                tree_contents(old(self).tree).submap_of(tree_contents(self.tree)),
                spec_genesis_map(self.bals(), bytes.skip(i as int)) == spec_genesis_map(
                    old(self).bals(),
                    bytes,
                ),
                spec_genesis_root(root_view(self.root), bytes.skip(i as int)) == spec_genesis_root(
                    root_view(old(self).root),
                    bytes,
                ),
                i == 0 ==> root_view(self.root) == root_view(old(self).root) && self.bals()
                    == old(self).bals(),
                i > 0 ==> root_view(self.root) is Some,
            decreases n - i,
        {
            let ghost t_before = self.tree;
            let ghost m_before = self.bals();
            let chunk = vstd::slice::slice_subrange(req.app_state_bytes.as_slice(), i, i + 40);
            let pair = match AccountBalancePair::deserialize(chunk) {
                Ok(p) => p,
                Err(_) => {
                    proof {
                        assert(false);
                    }
                    return Err(EasyFraudError::GenesisAccountDeserialization);
                },
            };
            let leaf = num_to_leaf(pair.balance);
            let new_root = match tree_insert(
                &mut self.tree,
                &self.root,
                pair.pubkey.as_slice(),
                leaf.as_slice(),
            ) {
                Ok(nr) => nr,
                Err(_) => {
                    proof {
                        lemma_submap_trans(old(self).tree, t_before, self.tree);
                        lemma_map_at_preserved(t_before, self.tree, root_view(self.root));
                        lemma_map_at_preserved(t_before, self.tree, root_view(self.volatile_root));
                        assert(0 <= i as int <= bytes.len() && i as int % 40 == 0
                            && spec_genesis_map(self.bals(), bytes.skip(i as int))
                            == spec_genesis_map(old(self).bals(), bytes) && spec_genesis_root(
                            root_view(self.root),
                            bytes.skip(i as int),
                        ) == spec_genesis_root(root_view(old(self).root), bytes));
                    }
                    return Err(EasyFraudError::TreeInsertionError);
                },
            };
            self.root = new_root;
            proof {
                let rest = bytes.skip(i as int);
                assert(rest.subrange(0, 32) =~= bytes.subrange(i as int, i as int + 32));
                assert(rest.subrange(32, 40) =~= bytes.subrange(i as int + 32, i as int + 40));
                assert(chunk@.subrange(0, 32) =~= bytes.subrange(i as int, i as int + 32));
                assert(chunk@.subrange(32, 40) =~= bytes.subrange(i as int + 32, i as int + 40));
                assert(rest.skip(40) =~= bytes.skip(i as int + 40));
                crate::utils::lemma_leaf_roundtrip(pair.balance);
                crate::tree::lemma_balances_wf_insert(m_before, pair.pubkey@, leaf@);
                lemma_map_at_preserved(t_before, self.tree, root_view(self.volatile_root));
                lemma_submap_trans(old(self).tree, t_before, self.tree);
                assert(bytes.skip(i as int).skip(40) =~= bytes.skip(i as int + 40));
            }
            i += 40;
        }

        self.height = 1;
        self.volatile_diffs = Vec::new();

        proof {
            assert(bytes.skip(n as int) =~= Seq::<u8>::empty());
        }
        let app_hash = match &self.root {
            None => {
                return Err(EasyFraudError::NullApphash);
            },
            Some(h) => vstd::slice::slice_to_vec(h.as_slice()),
        };
        self.volatile_root = Some(vstd::slice::slice_to_vec(app_hash.as_slice()));
        self.initialized = true;
        proof {
            lemma_map_at_preserved(self.tree, self.tree, root_view(self.root));
        }
        Ok(Response::InitChain { app_hash })
    }

    /// Replays the undo log against the pre-batch root — every record is
    /// reinstated, a leaf by re-insert, an absence by remove — then
    /// restores that root as current and clears the log. The restored
    /// root is exactly the one saved when the batch began, whatever the
    /// replay writes returned.
    pub fn revert_volatile(&mut self)
        requires
            old(self).wf(),
        ensures
            final(self).wf(),
            same_identity(*old(self), *final(self)),
            final(self).current_block == old(self).current_block,
            tree_contents(old(self).tree).submap_of(tree_contents(final(self).tree)),
            root_view(final(self).root) == root_view(old(self).volatile_root),
            final(self).bals() == map_at(old(self).tree, root_view(old(self).volatile_root)),
            final(self).volatile_root is None,
            final(self).volatile_diffs@.len() == 0,
    {
        let mut i: usize = 0;
        let diff_count = self.volatile_diffs.len();
        while i < diff_count
            invariant
                i <= diff_count,
                diff_count == self.volatile_diffs@.len(),
                self.wf(),
                self.chain_id@ == old(self).chain_id@,
                self.initialized == old(self).initialized,
                self.height == old(self).height,
                self.current_block == old(self).current_block,
                self.root == old(self).root,
                self.volatile_diffs@ == old(self).volatile_diffs@,
                root_view(self.volatile_root) == root_view(old(self).volatile_root),
                tree_contents(old(self).tree).submap_of(tree_contents(self.tree)),
                map_at(self.tree, root_view(self.volatile_root)) == map_at(
                    old(self).tree,
                    root_view(old(self).volatile_root),
                ),
            decreases diff_count - i,
        {
            let ghost t_before = self.tree;
            proof {
                assert(diff_wf(self.volatile_diffs@[i as int]@));
            }
            let has_leaf = match &self.volatile_diffs[i].balance {
                Some(_) => true,
                None => false,
            };
            if has_leaf {
                let leaf = match &self.volatile_diffs[i].balance {
                    Some(l) => vstd::slice::slice_to_vec(l.as_slice()),
                    None => Vec::new(),
                };
                let key = vstd::slice::slice_to_vec(self.volatile_diffs[i].pubkey.as_slice());
                let _ = tree_insert(
                    &mut self.tree,
                    &self.volatile_root,
                    key.as_slice(),
                    leaf.as_slice(),
                );
            } else {
                let key = vstd::slice::slice_to_vec(self.volatile_diffs[i].pubkey.as_slice());
                let _ = tree_remove(&mut self.tree, &self.volatile_root, key.as_slice());
            }
            proof {
                lemma_submap_trans(old(self).tree, t_before, self.tree);
                lemma_map_at_preserved(t_before, self.tree, root_view(self.volatile_root));
                lemma_map_at_preserved(t_before, self.tree, root_view(self.root));
            }
            i += 1;
        }
        let restored = match &self.volatile_root {
            None => None,
            Some(h) => Some(vstd::slice::slice_to_vec(h.as_slice())),
        };
        self.root = restored;
        self.volatile_root = None;
        self.volatile_diffs = Vec::new();
        proof {
            lemma_map_at_preserved(old(self).tree, self.tree, root_view(old(self).volatile_root));
        }
    }
}

/// Everything `prepare_proposal` promises: the batch is run strictly in
/// order, the resulting block is stored as the in-flight proposal, and
/// the response carries each accepted pair's 168-byte encoding.
pub open spec fn prepare_post(
    pre: State,
    post: State,
    req: RequestPrepareProposal,
    r: Result<Response, EasyFraudError>,
) -> bool {
    &&& post.wf()
    &&& same_identity(pre, post)
    &&& root_view(post.volatile_root) == root_view(pre.volatile_root)
    &&& tree_contents(pre.tree).submap_of(tree_contents(post.tree))
    &&& (match r {
        Ok(resp) => {
            let out = crate::block::spec_run(pre.ledger_view(), crate::block::raw_views(req.txs@));
            &&& post.ledger_view() == out.led
            &&& diffs_view(post.volatile_diffs@) == diffs_view(pre.volatile_diffs@) + out.diffs
            &&& (match post.current_block {
                Some(b) => crate::block::pairs_view(b.pairs@) == out.pairs && root_view(
                    b.header.apphash,
                ) == root_view(post.root),
                None => false,
            })
            &&& (match resp {
                Response::PrepareProposal { txs } => txs@.len() == out.pairs.len() && (forall|
                    k: int,
                |
                    0 <= k < txs@.len() ==> (#[trigger] txs@[k])@ == crate::block::spec_pair_bytes(
                        out.pairs[k],
                    )),
                _ => false,
            })
        },
        Err(e) => {
            &&& post.current_block == pre.current_block
            &&& (e == EasyFraudError::TreeGetError || e == EasyFraudError::TreeInsertionError || e
                == EasyFraudError::CouldNotRevert)
        },
    })
    // only entries that decode and carry a valid signature ever reach
    // the store, so a batch of nothing but invalid entries is never a
    // fault
    &&& ((forall|k: int|
        0 <= k < req.txs@.len() ==> !crate::block::raw_valid((#[trigger] req.txs@[k])@)) ==> r
        is Ok)
}

/// Everything `process_proposal` promises: the state is untouched and
/// the batch is accepted exactly when every entry is one encoded
/// accepted pair.
pub open spec fn process_proposal_post(
    pre: State,
    post: State,
    req: RequestProcessProposal,
    r: Result<(), EasyFraudError>,
) -> bool {
    &&& post == pre
    &&& (match r {
        Ok(_) => forall|k: int| 0 <= k < req.txs@.len() ==> (#[trigger] req.txs@[k])@.len() == 168,
        Err(e) => {
            &&& e == EasyFraudError::DeserializePairsError
            &&& (exists|k: int|
                0 <= k < req.txs@.len() && (#[trigger] req.txs@[k])@.len() != 168)
        },
    })
}

impl State {
    /// Runs a raw batch through the block processor, stores the
    /// resulting block as the in-flight proposal, and hands back the
    /// accepted pairs, each serialized to 168 bytes, for broadcast.
    pub fn prepare_proposal(&mut self, req: RequestPrepareProposal) -> (r: Result<
        Response,
        EasyFraudError,
    >)
        requires
            old(self).wf(),
        ensures
            prepare_post(*old(self), *final(self), req, r),
    {
        let ghost pre = *old(self);
        let incoming_block = crate::block::IncomingBlock { signed_transactions: req.txs };
        let outgoing = match incoming_block.process(self) {
            Ok(b) => b,
            Err(e) => {
                return Err(e);
            },
        };
        let mut txs: Vec<Vec<u8>> = Vec::new();
        let pair_count = outgoing.pairs.len();
        let mut i: usize = 0;
        while i < pair_count
            invariant
                i <= pair_count,
                pair_count == outgoing.pairs@.len(),
                forall|k: int| 0 <= k < outgoing.pairs@.len() ==> (#[trigger] outgoing.pairs@[k]).wf(),
                txs@.len() == i,
                forall|k: int|
                    0 <= k < i ==> (#[trigger] txs@[k])@ == crate::block::spec_pair_bytes(
                        outgoing.pairs@[k]@,
                    ),
            decreases pair_count - i,
        {
            let encoded = outgoing.pairs[i].serialize();
            txs.push(encoded);
            i += 1;
        }
        self.current_block = Some(outgoing);
        proof {
            let out = crate::block::spec_run(pre.ledger_view(), crate::block::raw_views(req.txs@));
            assert(crate::block::pairs_view(
                (match self.current_block {
                    Some(b) => b,
                    None => arbitrary(),
                }).pairs@,
            ) == out.pairs);
        }
        Ok(Response::PrepareProposal { txs })
    }

    /// Validates a previously serialized batch of accepted pairs,
    /// purely structurally: every entry must be exactly one 168-byte
    /// encoded pair. The ledger itself is untouched.
    pub fn process_proposal(&mut self, req: RequestProcessProposal) -> (r: Result<
        (),
        EasyFraudError,
    >)
        ensures
            process_proposal_post(*old(self), *final(self), req, r),
    {
        let count = req.txs.len();
        let mut i: usize = 0;
        while i < count
            invariant
                i <= count,
                count == req.txs@.len(),
                forall|k: int| 0 <= k < i ==> (#[trigger] req.txs@[k])@.len() == 168,
            decreases count - i,
        {
            match SignedTxnISRPair::from_slice(req.txs[i].as_slice()) {
                Ok(_) => {
                },
                Err(_) => {
                    return Err(EasyFraudError::DeserializePairsError);
                },
            }
            i += 1;
        }
        Ok(())
    }

    /// Dispatches one consensus request to the operation that handles
    /// it: genesis, proposal preparation, or proposal validation.
    pub fn call(&mut self, req: Request) -> (r: Result<Response, EasyFraudError>)
        requires
            old(self).wf(),
        ensures
            (match req {
                Request::InitChain(ic) => init_post(*old(self), *final(self), ic, r),
                Request::PrepareProposal(pp) => prepare_post(*old(self), *final(self), pp, r),
                Request::ProcessProposal(vp) => (match r {
                    Ok(resp) => resp is ProcessProposal && process_proposal_post(
                        *old(self),
                        *final(self),
                        vp,
                        Ok(()),
                    ),
                    Err(e) => process_proposal_post(*old(self), *final(self), vp, Err(e)),
                }),
            }),
    {
        match req {
            Request::InitChain(init_chain) => self.init_chain(init_chain),
            Request::PrepareProposal(prepare_prop) => self.prepare_proposal(prepare_prop),
            Request::ProcessProposal(process_prop) => {
                match self.process_proposal(process_prop) {
                    Ok(_) => Ok(Response::ProcessProposal),
                    Err(e) => Err(e),
                }
            },
        }
    }
}

} // verus!
