//! Fixed-layout transfer transactions, their detached Ed25519 signatures,
//! and the codec between them and raw bytes.
//!
//! A `Transaction` encodes to exactly 72 bytes: sender(32) | recipient(32)
//! | amount(8, little-endian). A `SignedTransaction` encodes to exactly
//! 136 bytes: transaction(72) | signature(64).
use vstd::prelude::*;
use vstd::bytes::{spec_u64_from_le_bytes, spec_u64_to_le_bytes, u64_from_le_bytes};
use crate::errors::EasyFraudError;
use crate::utils::append_bytes;

verus! {

/// A transfer intent: move `amount` from `sender_pubkey` to
/// `recipient_pubkey`. Both keys are 32-byte Ed25519 public keys.
#[derive(Debug)]
pub struct Transaction {
    pub sender_pubkey: Vec<u8>,
    pub recipient_pubkey: Vec<u8>,
    pub amount: u64,
}

/// The mathematical value of a `Transaction`.
pub struct TxView {
    pub sender: Seq<u8>,
    pub recipient: Seq<u8>,
    pub amount: u64,
}

/// A transaction's 72 encoded bytes together with a detached 64-byte
/// signature over exactly those bytes.
#[derive(Debug)]
pub struct SignedTransaction {
    pub transaction_data: Vec<u8>,
    pub signature: Vec<u8>,
}

/// The mathematical value of a `SignedTransaction`.
pub struct StxView {
    pub tx: Seq<u8>,
    pub sig: Seq<u8>,
}

impl View for Transaction {
    type V = TxView;

    open spec fn view(&self) -> TxView {
        TxView {
            sender: self.sender_pubkey@,
            recipient: self.recipient_pubkey@,
            amount: self.amount,
        }
    }
}

impl View for SignedTransaction {
    type V = StxView;

    open spec fn view(&self) -> StxView {
        StxView { tx: self.transaction_data@, sig: self.signature@ }
    }
}

pub open spec fn tx_view_wf(t: TxView) -> bool {
    &&& t.sender.len() == 32
    &&& t.recipient.len() == 32
}

pub open spec fn stx_view_wf(s: StxView) -> bool {
    &&& s.tx.len() == 72
    &&& s.sig.len() == 64
}

/// The 72-byte encoding of a transaction.
pub open spec fn spec_tx_bytes(t: TxView) -> Seq<u8> {
    t.sender + t.recipient + spec_u64_to_le_bytes(t.amount)
}

/// The transaction a 72-byte string decodes to.
pub open spec fn spec_decode_tx(b: Seq<u8>) -> TxView {
    TxView {
        sender: b.subrange(0, 32),
        recipient: b.subrange(32, 64),
        amount: spec_u64_from_le_bytes(b.subrange(64, 72)),
    }
}

/// The 136-byte encoding of a signed transaction.
pub open spec fn spec_stx_bytes(s: StxView) -> Seq<u8> {
    s.tx + s.sig
}

/// The signed transaction a 136-byte string decodes to.
pub open spec fn spec_decode_stx(b: Seq<u8>) -> StxView {
    StxView { tx: b.subrange(0, 72), sig: b.subrange(72, 136) }
}

/// Encoding then decoding a well-formed transaction is the identity.
pub proof fn lemma_tx_roundtrip(t: TxView)
    requires
        tx_view_wf(t),
    ensures
        spec_tx_bytes(t).len() == 72,
        spec_decode_tx(spec_tx_bytes(t)) == t,
{
    vstd::bytes::lemma_auto_spec_u64_to_from_le_bytes();
    let b = spec_tx_bytes(t);
    assert(b.subrange(0, 32) =~= t.sender);
    assert(b.subrange(32, 64) =~= t.recipient);
    assert(b.subrange(64, 72) =~= spec_u64_to_le_bytes(t.amount));
}

/// Decoding then re-encoding any 72-byte string is the identity.
pub proof fn lemma_tx_bytes_roundtrip(b: Seq<u8>)
    requires
        b.len() == 72,
    ensures
        spec_tx_bytes(spec_decode_tx(b)) == b,
{
    vstd::bytes::lemma_auto_spec_u64_to_from_le_bytes();
    assert(spec_u64_to_le_bytes(spec_u64_from_le_bytes(b.subrange(64, 72))) == b.subrange(64, 72));
    assert(spec_tx_bytes(spec_decode_tx(b)) =~= b);
}

/// Encoding then decoding a well-formed signed transaction is the identity.
pub proof fn lemma_stx_roundtrip(s: StxView)
    requires
        stx_view_wf(s),
    ensures
        spec_stx_bytes(s).len() == 136,
        spec_decode_stx(spec_stx_bytes(s)) == s,
{
    let b = spec_stx_bytes(s);
    assert(b.subrange(0, 72) =~= s.tx);
    assert(b.subrange(72, 136) =~= s.sig);
}

/// Decoding then re-encoding any 136-byte string is the identity.
pub proof fn lemma_stx_bytes_roundtrip(b: Seq<u8>)
    requires
        b.len() == 136,
    ensures
        spec_stx_bytes(spec_decode_stx(b)) == b,
{
    assert(spec_stx_bytes(spec_decode_stx(b)) =~= b);
}

/// Whether 32 bytes parse as an Ed25519 verifying key.
/// Applied by `ed25519_check`.
pub uninterp spec fn key_wellformed(pubkey: Seq<u8>) -> bool;

/// Whether `pubkey` parses as an Ed25519 verifying key and `sig` is a
/// valid signature over `msg` by it — the one boolean that checking a
/// signature can observe. Applied by `ed25519_check` and `ed25519_sign`.
pub uninterp spec fn sig_valid(pubkey: Seq<u8>, msg: Seq<u8>, sig: Seq<u8>) -> bool;

/// The (deterministic) Ed25519 signature over `msg` by the secret key
/// `seckey`. Applied by `ed25519_sign`.
pub uninterp spec fn sig_of(seckey: Seq<u8>, msg: Seq<u8>) -> Seq<u8>;

/// The verifying key derived from the secret key `seckey`.
/// Applied by `ed25519_sign`.
pub uninterp spec fn pk_of(seckey: Seq<u8>) -> Seq<u8>;

/// Relies on `ed25519_dalek::VerifyingKey::from_bytes` (which accepts
/// exactly the well-formed 32-byte keys) and `ed25519_dalek::Verifier::verify`
/// (which decides, as a function of key, message and signature bytes,
/// whether the signature is valid).
#[verifier::external_body]
fn ed25519_check(pubkey: &[u8], msg: &[u8], sig: &[u8]) -> (r: Option<bool>)
    requires
        pubkey@.len() == 32,
        sig@.len() == 64,
    ensures
        r is Some <==> key_wellformed(pubkey@),
        r == Some(true) <==> sig_valid(pubkey@, msg@, sig@),
{
    let pk: [u8; 32] = pubkey.try_into().unwrap();
    match ed25519_dalek::VerifyingKey::from_bytes(&pk) {
        Ok(vk) => {
            let sg: [u8; 64] = sig.try_into().unwrap();
            let signature = ed25519_dalek::Signature::from_bytes(&sg);
            Some(ed25519_dalek::Verifier::verify(&vk, msg, &signature).is_ok())
        }
        Err(_) => None,
    }
}

/// Relies on `ed25519_dalek::SigningKey::from_bytes` (total on 32-byte
/// seeds) and `ed25519_dalek::Signer::sign`: Ed25519 signing is a
/// deterministic function of the secret key and the message, and the
/// signature it produces verifies under the derived, well-formed
/// verifying key.
#[verifier::external_body]
fn ed25519_sign(seckey: &[u8], msg: &[u8]) -> (r: Vec<u8>)
    requires
        seckey@.len() == 32,
    ensures
        r@ == sig_of(seckey@, msg@),
        r@.len() == 64,
        sig_valid(pk_of(seckey@), msg@, r@),
{
    let sk: [u8; 32] = seckey.try_into().unwrap();
    let key = ed25519_dalek::SigningKey::from_bytes(&sk);
    ed25519_dalek::Signer::sign(&key, msg).to_bytes().to_vec()
}

/// The sender key embedded in a signed transaction's bytes.
pub open spec fn spec_sender(s: StxView) -> Seq<u8> {
    s.tx.subrange(0, 32)
}

/// Whether a signed transaction's signature verifies against its own
/// embedded transaction bytes and sender key.
pub open spec fn spec_sig_ok(s: StxView) -> bool {
    sig_valid(spec_sender(s), s.tx, s.sig)
}

impl Transaction {
    pub open spec fn wf(&self) -> bool {
        tx_view_wf(self@)
    }

    /// Encodes to exactly 72 bytes: sender | recipient | amount(LE).
    pub fn serialize(&self) -> (r: Vec<u8>)
        requires
            self.wf(),
        ensures
            r@ == spec_tx_bytes(self@),
            r@.len() == 72,
    {
        let mut buf: Vec<u8> = Vec::new();
        append_bytes(&mut buf, self.sender_pubkey.as_slice());
        append_bytes(&mut buf, self.recipient_pubkey.as_slice());
        let amount_bytes = vstd::bytes::u64_to_le_bytes(self.amount);
        append_bytes(&mut buf, amount_bytes.as_slice());
        proof {
            assert(buf@ =~= spec_tx_bytes(self@));
        }
        buf
    }

    /// Decodes 72 bytes into a transaction; any other length is refused.
    pub fn deserialize(bytes: &[u8]) -> (r: Result<Transaction, EasyFraudError>)
        ensures
            (match r {
                Ok(t) => bytes@.len() == 72 && t@ == spec_decode_tx(bytes@) && t.wf(),
                Err(e) => bytes@.len() != 72 && e == EasyFraudError::TransactionDeserializationError,
            }),
    {
        if bytes.len() != 72 {
            return Err(EasyFraudError::TransactionDeserializationError);
        }
        let sender = vstd::slice::slice_to_vec(vstd::slice::slice_subrange(bytes, 0, 32));
        let recipient = vstd::slice::slice_to_vec(vstd::slice::slice_subrange(bytes, 32, 64));
        let amount = u64_from_le_bytes(vstd::slice::slice_subrange(bytes, 64, 72));
        Ok(Transaction { sender_pubkey: sender, recipient_pubkey: recipient, amount })
    }

    /// Signs the 72-byte encoding with the 32-byte Ed25519 secret key and
    /// returns the transaction bytes with the detached signature.
    ///
    /// If the transaction names the signer's own verifying key as sender,
    /// the result passes signature verification.
    pub fn sign(&self, signing_key: &[u8]) -> (r: SignedTransaction)
        requires
            self.wf(),
            signing_key@.len() == 32,
        ensures
            r.transaction_data@ == spec_tx_bytes(self@),
            r.signature@ == sig_of(signing_key@, spec_tx_bytes(self@)),
            r.wf(),
            (self.sender_pubkey@ == pk_of(signing_key@) ==> spec_sig_ok(r@)),
    {
        let serialized = self.serialize();
        let signature = ed25519_sign(signing_key, serialized.as_slice());
        let r = SignedTransaction { transaction_data: serialized, signature };
        proof {
            assert(spec_sender(r@) =~= self.sender_pubkey@);
        }
        r
    }
}

impl SignedTransaction {
    pub open spec fn wf(&self) -> bool {
        stx_view_wf(self@)
    }

    /// Encodes to exactly 136 bytes: transaction(72) | signature(64).
    pub fn serialize(&self) -> (r: Vec<u8>)
        requires
            self.wf(),
        ensures
            r@ == spec_stx_bytes(self@),
            r@.len() == 136,
    {
        let mut buf: Vec<u8> = Vec::new();
        append_bytes(&mut buf, self.transaction_data.as_slice());
        append_bytes(&mut buf, self.signature.as_slice());
        proof {
            assert(buf@ =~= spec_stx_bytes(self@));
        }
        buf
    }

    /// Decodes 136 bytes into a signed transaction; any other length is
    /// refused.
    pub fn deserialize(bytes: &[u8]) -> (r: Result<SignedTransaction, EasyFraudError>)
        ensures
            (match r {
                Ok(s) => bytes@.len() == 136 && s@ == spec_decode_stx(bytes@) && s.wf(),
                Err(e) => bytes@.len() != 136 && e
                    == EasyFraudError::TransactionDeserializationError,
            }),
    {
        if bytes.len() != 136 {
            return Err(EasyFraudError::TransactionDeserializationError);
        }
        let data = vstd::slice::slice_to_vec(vstd::slice::slice_subrange(bytes, 0, 72));
        let sig = vstd::slice::slice_to_vec(vstd::slice::slice_subrange(bytes, 72, 136));
        Ok(SignedTransaction { transaction_data: data, signature: sig })
    }

    /// Checks the detached signature against the embedded transaction
    /// bytes and the sender key they name. Returns `false`, and never
    /// fails, on a malformed key or an invalid signature.
    pub fn verify(&self) -> (r: bool)
        requires
            self.wf(),
        ensures
            r == spec_sig_ok(self@),
    {
        let sender = vstd::slice::slice_subrange(self.transaction_data.as_slice(), 0, 32);
        match ed25519_check(sender, self.transaction_data.as_slice(), self.signature.as_slice()) {
            Some(ok) => ok,
            None => false,
        }
    }

    /// Decodes the embedded transaction and verifies the signature: the
    /// one entry point for validating untrusted input. A sender key that
    /// is no Ed25519 point is a decode failure; a well-formed key whose
    /// signature does not check is `InvalidSignature`.
    pub fn verify_and_deserialize(&self) -> (r: Result<Transaction, EasyFraudError>)
        requires
            self.wf(),
        ensures
            (match r {
                Ok(t) => spec_sig_ok(self@) && t@ == spec_decode_tx(self.transaction_data@)
                    && t.wf(),
                Err(e) => !spec_sig_ok(self@) && (if key_wellformed(spec_sender(self@)) {
                    e == EasyFraudError::InvalidSignature
                } else {
                    e == EasyFraudError::TransactionDeserializationError
                }),
            }),
    {
        let txn = match Transaction::deserialize(self.transaction_data.as_slice()) {
            Ok(t) => t,
            Err(_) => {
                return Err(EasyFraudError::TransactionDeserializationError);
            },
        };
        let sender = vstd::slice::slice_subrange(self.transaction_data.as_slice(), 0, 32);
        match ed25519_check(sender, self.transaction_data.as_slice(), self.signature.as_slice()) {
            Some(true) => Ok(txn),
            Some(false) => Err(EasyFraudError::InvalidSignature),
            None => Err(EasyFraudError::TransactionDeserializationError),
        }
    }
}

} // verus!
