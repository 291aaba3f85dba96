use easyfraud::block::{pairs_into_blob, SignedTxnISRPair};
use easyfraud::errors::EasyFraudError;
use easyfraud::state::AccountBalancePair;
use easyfraud::transaction::{SignedTransaction, Transaction};
use easyfraud::utils::{leaf_to_num, num_to_leaf};

#[test]
fn transaction_serializes_to_fixed_layout() {
    let t = Transaction {
        sender_pubkey: vec![1; 32],
        recipient_pubkey: vec![2; 32],
        amount: 3000,
    };
    let bytes = t.serialize();
    assert_eq!(bytes.len(), 72);
    assert_eq!(&bytes[..32], &[1u8; 32][..]);
    assert_eq!(&bytes[32..64], &[2u8; 32][..]);
    assert_eq!(&bytes[64..], &3000u64.to_le_bytes()[..]);
}

#[test]
fn transaction_roundtrips() {
    let t = Transaction {
        sender_pubkey: (0..32).collect(),
        recipient_pubkey: (32..64).collect(),
        amount: u64::MAX,
    };
    let back = Transaction::deserialize(&t.serialize()).unwrap();
    assert_eq!(back.sender_pubkey, t.sender_pubkey);
    assert_eq!(back.recipient_pubkey, t.recipient_pubkey);
    assert_eq!(back.amount, t.amount);
}

#[test]
fn transaction_deserialize_rejects_wrong_length() {
    assert_eq!(
        Transaction::deserialize(&[0u8; 71]).unwrap_err(),
        EasyFraudError::TransactionDeserializationError
    );
    assert_eq!(
        Transaction::deserialize(&[0u8; 73]).unwrap_err(),
        EasyFraudError::TransactionDeserializationError
    );
}

#[test]
fn signed_transaction_roundtrips() {
    let stx = SignedTransaction {
        transaction_data: (0..72).collect(),
        signature: (0..64).collect(),
    };
    let bytes = stx.serialize();
    assert_eq!(bytes.len(), 136);
    let back = SignedTransaction::deserialize(&bytes).unwrap();
    assert_eq!(back.transaction_data, stx.transaction_data);
    assert_eq!(back.signature, stx.signature);
    assert_eq!(
        SignedTransaction::deserialize(&bytes[..135]).unwrap_err(),
        EasyFraudError::TransactionDeserializationError
    );
}

#[test]
fn pair_roundtrips() {
    let pair = SignedTxnISRPair((0..136).map(|i| (i % 251) as u8).collect(), vec![9; 32]);
    let bytes = pair.serialize();
    assert_eq!(bytes.len(), 168);
    let back = SignedTxnISRPair::from_slice(&bytes).unwrap();
    assert_eq!(back.0, pair.0);
    assert_eq!(back.1, pair.1);
    let again = SignedTxnISRPair::deserialize(&bytes).unwrap();
    assert_eq!(again.0, pair.0);
    assert_eq!(
        SignedTxnISRPair::from_slice(&bytes[..167]).unwrap_err(),
        EasyFraudError::SerializePairsError
    );
}

#[test]
fn genesis_record_roundtrips() {
    let pair = AccountBalancePair { pubkey: vec![5; 32], balance: 123456789 };
    let bytes = pair.serialize();
    assert_eq!(bytes.len(), 40);
    assert_eq!(&bytes[..32], &[5u8; 32][..]);
    assert_eq!(&bytes[32..], &123456789u64.to_le_bytes()[..]);
    let back = AccountBalancePair::deserialize(&bytes).unwrap();
    assert_eq!(back.pubkey, pair.pubkey);
    assert_eq!(back.balance, pair.balance);
    assert_eq!(
        AccountBalancePair::deserialize(&bytes[..39]).unwrap_err(),
        EasyFraudError::GenesisAccountDeserialization
    );
}

#[test]
fn balance_leaf_is_zero_padding_then_little_endian() {
    let leaf = num_to_leaf(3000);
    assert_eq!(leaf.len(), 32);
    assert_eq!(&leaf[..24], &[0u8; 24][..]);
    assert_eq!(&leaf[24..], &3000u64.to_le_bytes()[..]);
    assert_eq!(leaf_to_num(&leaf), 3000);

    // decoding reads bytes [24..32) whatever the padding holds
    let mut noisy = leaf.clone();
    noisy[0] = 0xFF;
    assert_eq!(leaf_to_num(&noisy), 3000);
}

#[test]
fn packing_seven_pairs_gives_two_shares_and_drops_the_seventh() {
    let pairs: Vec<SignedTxnISRPair> = (0..7u8)
        .map(|i| SignedTxnISRPair(vec![i; 136], vec![100 + i; 32]))
        .collect();
    let shares = pairs_into_blob(&pairs);
    assert_eq!(shares.len(), 2);
    for (g, share) in shares.iter().enumerate() {
        assert_eq!(share.data.len(), 512);
        for k in 0..3 {
            let pair = &pairs[3 * g + k];
            let expected = pair.serialize();
            assert_eq!(&share.data[168 * k..168 * (k + 1)], &expected[..]);
        }
        assert_eq!(&share.data[504..], &[0u8; 8][..]);
    }
    // a trailing group of fewer than three pairs is dropped, not padded
    let two_pairs: Vec<SignedTxnISRPair> = (0..2u8)
        .map(|i| SignedTxnISRPair(vec![i; 136], vec![100 + i; 32]))
        .collect();
    let two = pairs_into_blob(&two_pairs);
    assert_eq!(two.len(), 0);
}
