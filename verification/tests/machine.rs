use easyfraud::block::IncomingBlock;
use easyfraud::errors::EasyFraudError;
use easyfraud::state::{
    AccountBalancePair, Request, RequestInitChain, RequestPrepareProposal, RequestProcessProposal,
    Response, State,
};
use easyfraud::transaction::{SignedTransaction, Transaction};
use easyfraud::utils::leaf_to_num;
use ed25519_dalek::SigningKey;

fn balance_of(state: &mut State, key: &[u8]) -> Option<u64> {
    let root: Option<[u8; 32]> = state.root.as_ref().map(|v| v.as_slice().try_into().unwrap());
    let k: [u8; 32] = key.try_into().unwrap();
    state
        .tree
        .get(root.as_ref(), &k)
        .unwrap()
        .map(|leaf| leaf_to_num(&leaf))
}

fn keypair(seed: u8) -> (Vec<u8>, Vec<u8>) {
    let sk = SigningKey::from_bytes(&[seed; 32]);
    (sk.to_bytes().to_vec(), sk.verifying_key().to_bytes().to_vec())
}

fn genesis(state: &mut State, accounts: &[(&[u8], u64)]) -> Vec<u8> {
    let mut app_state_bytes = Vec::new();
    for (pk, balance) in accounts {
        app_state_bytes.extend_from_slice(&AccountBalancePair {
            pubkey: pk.to_vec(),
            balance: *balance,
        }
        .serialize());
    }
    let resp = state
        .init_chain(RequestInitChain {
            chain_id: b"mychain".to_vec(),
            initial_height: 1,
            app_state_bytes,
        })
        .unwrap();
    match resp {
        Response::InitChain { app_hash } => app_hash,
        _ => panic!("unexpected response"),
    }
}

fn transfer(sender_sk: &[u8], sender_pk: &[u8], recipient_pk: &[u8], amount: u64) -> Vec<u8> {
    Transaction {
        sender_pubkey: sender_pk.to_vec(),
        recipient_pubkey: recipient_pk.to_vec(),
        amount,
    }
    .sign(sender_sk)
    .serialize()
}

#[test]
fn signed_transaction_verifies_and_bit_flips_break_it() {
    let (sk, pk) = keypair(7);
    let (_, other_pk) = keypair(8);
    let signed = Transaction {
        sender_pubkey: pk.clone(),
        recipient_pubkey: other_pk,
        amount: 41,
    }
    .sign(&sk);
    assert!(signed.verify());
    assert!(signed.verify_and_deserialize().is_ok());

    // flip one bit of the signature
    let mut bad_sig = SignedTransaction {
        transaction_data: signed.transaction_data.clone(),
        signature: signed.signature.clone(),
    };
    bad_sig.signature[10] ^= 0x01;
    assert!(!bad_sig.verify());
    assert_eq!(
        bad_sig.verify_and_deserialize().unwrap_err(),
        EasyFraudError::InvalidSignature
    );

    // flip one bit of the transaction body (outside the sender key)
    let mut bad_body = SignedTransaction {
        transaction_data: signed.transaction_data.clone(),
        signature: signed.signature.clone(),
    };
    bad_body.transaction_data[40] ^= 0x01;
    assert!(!bad_body.verify());
    assert_eq!(
        bad_body.verify_and_deserialize().unwrap_err(),
        EasyFraudError::InvalidSignature
    );
}

#[test]
fn malformed_sender_key_is_a_decode_failure_not_a_panic() {
    let (sk, _) = keypair(19);
    // find 32 bytes that are no Ed25519 point: a sender key that cannot
    // be decompressed is a decode failure, never a panic
    let mut bad_key = None;
    for k in 0u8..=255 {
        let mut kb = [0u8; 32];
        kb[0] = k;
        if ed25519_dalek::VerifyingKey::from_bytes(&kb).is_err() {
            bad_key = Some(kb.to_vec());
            break;
        }
    }
    let signed = Transaction {
        sender_pubkey: bad_key.unwrap(),
        recipient_pubkey: vec![1; 32],
        amount: 10,
    }
    .sign(&sk);
    assert!(!signed.verify());
    assert_eq!(
        signed.verify_and_deserialize().unwrap_err(),
        EasyFraudError::TransactionDeserializationError
    );

    // the state machine folds it into a rejection
    let mut state = State::new(b"mychain".to_vec());
    let (_, a_pk) = keypair(20);
    genesis(&mut state, &[(&a_pk, 100)]);
    assert_eq!(state.verify_and_run_transaction(&signed).unwrap(), None);
}

#[test]
fn transfers_conserve_the_total_of_balances() {
    let (whale_sk, whale_pk) = keypair(1);
    let (_, a_pk) = keypair(2);
    let (_, b_pk) = keypair(3);
    let mut state = State::new(b"mychain".to_vec());
    genesis(&mut state, &[(&whale_pk, 1000000), (&a_pk, 500)]);

    let batch = vec![
        transfer(&whale_sk, &whale_pk, &a_pk, 300),
        transfer(&whale_sk, &whale_pk, &b_pk, 999),
    ];
    let block = IncomingBlock { signed_transactions: batch }.process(&mut state).unwrap();
    assert_eq!(block.pairs.len(), 2);
    let whale = balance_of(&mut state, &whale_pk).unwrap();
    let a = balance_of(&mut state, &a_pk).unwrap();
    let b = balance_of(&mut state, &b_pk).unwrap();
    assert_eq!(whale, 1000000 - 300 - 999);
    assert_eq!(a, 500 + 300);
    assert_eq!(b, 999);
    assert_eq!(whale + a + b, 1000000 + 500);
}

#[test]
fn self_transfers_are_rejected_and_mint_nothing() {
    let (sk, pk) = keypair(21);
    let mut state = State::new(b"mychain".to_vec());
    genesis(&mut state, &[(&pk, 1000)]);
    let root_before = state.root.clone();

    // a transfer from an account to itself would credit the pre-debit
    // balance and create value: it is rejected, alone and in a batch
    let self_pay = Transaction {
        sender_pubkey: pk.clone(),
        recipient_pubkey: pk.clone(),
        amount: 100,
    }
    .sign(&sk);
    assert_eq!(state.verify_and_run_transaction(&self_pay).unwrap(), None);
    assert_eq!(state.root, root_before);
    assert_eq!(balance_of(&mut state, &pk).unwrap(), 1000);

    let batch = vec![
        transfer(&sk, &pk, &pk, 800),
        transfer(&sk, &pk, &pk, 800),
    ];
    let block = IncomingBlock { signed_transactions: batch }.process(&mut state).unwrap();
    assert_eq!(block.pairs.len(), 0);
    assert_eq!(state.root, root_before);
    assert_eq!(balance_of(&mut state, &pk).unwrap(), 1000);
}

#[test]
fn empty_and_all_invalid_batches_change_nothing() {
    let (_, pk) = keypair(22);
    let mut state = State::new(b"mychain".to_vec());
    genesis(&mut state, &[(&pk, 1000)]);
    let root_before = state.root.clone();

    let empty = IncomingBlock { signed_transactions: Vec::new() }.process(&mut state).unwrap();
    assert_eq!(empty.pairs.len(), 0);
    assert_eq!(state.root, root_before);

    // wrong length, and right length with a garbage signature
    let garbage = IncomingBlock {
        signed_transactions: vec![vec![7u8; 10], vec![7u8; 136]],
    }
    .process(&mut state)
    .unwrap();
    assert_eq!(garbage.pairs.len(), 0);
    assert_eq!(state.root, root_before);
}

#[test]
fn no_double_spend_within_a_batch() {
    let (sender_sk, sender_pk) = keypair(4);
    let (_, r1_pk) = keypair(5);
    let (_, r2_pk) = keypair(6);
    let mut state = State::new(b"mychain".to_vec());
    genesis(&mut state, &[(&sender_pk, 1000)]);

    let batch = vec![
        transfer(&sender_sk, &sender_pk, &r1_pk, 800),
        transfer(&sender_sk, &sender_pk, &r2_pk, 800),
    ];
    let block = IncomingBlock { signed_transactions: batch }.process(&mut state).unwrap();
    // exactly one of the two is accepted, the other lacks balance
    assert_eq!(block.pairs.len(), 1);
    assert_eq!(balance_of(&mut state, &sender_pk).unwrap(), 200);
    assert_eq!(balance_of(&mut state, &r1_pk).unwrap(), 800);
    assert_eq!(balance_of(&mut state, &r2_pk), None);
}

#[test]
fn rejected_entries_leave_the_same_root_as_their_absence() {
    let (whale_sk, whale_pk) = keypair(9);
    let mut txs = Vec::new();
    for i in 0..10u8 {
        let (_, r_pk) = keypair(100 + i);
        txs.push(transfer(&whale_sk, &whale_pk, &r_pk, 1000 + i as u64));
    }
    let mut corrupted = txs.clone();
    corrupted[3][80] ^= 0x40;
    corrupted[7][90] ^= 0x02;
    let valid_only: Vec<Vec<u8>> = txs
        .iter()
        .enumerate()
        .filter(|(i, _)| *i != 3 && *i != 7)
        .map(|(_, tx)| tx.clone())
        .collect();

    let mut state_a = State::new(b"mychain".to_vec());
    genesis(&mut state_a, &[(&whale_pk, 1000000)]);
    let block_a = IncomingBlock { signed_transactions: corrupted }.process(&mut state_a).unwrap();
    assert_eq!(block_a.pairs.len(), 8);

    let mut state_b = State::new(b"mychain".to_vec());
    genesis(&mut state_b, &[(&whale_pk, 1000000)]);
    let block_b = IncomingBlock { signed_transactions: valid_only }.process(&mut state_b).unwrap();
    assert_eq!(block_b.pairs.len(), 8);

    assert_eq!(state_a.root, state_b.root);
    assert_eq!(block_a.header.apphash, block_b.header.apphash);
}

#[test]
fn genesis_is_deterministic_and_height_must_be_one() {
    let (_, a_pk) = keypair(11);
    let (_, b_pk) = keypair(12);

    let mut first = State::new(b"mychain".to_vec());
    assert!(!first.initialized);
    let hash_1 = genesis(&mut first, &[(&a_pk, 70), (&b_pk, 30)]);
    let mut second = State::new(b"mychain".to_vec());
    let hash_2 = genesis(&mut second, &[(&a_pk, 70), (&b_pk, 30)]);
    assert_eq!(hash_1, hash_2);
    assert_eq!(first.height, 1);
    assert!(first.initialized);

    let mut third = State::new(b"mychain".to_vec());
    let record = AccountBalancePair { pubkey: a_pk.to_vec(), balance: 70 }.serialize();
    let err = third
        .init_chain(RequestInitChain {
            chain_id: b"mychain".to_vec(),
            initial_height: 2,
            app_state_bytes: record,
        })
        .unwrap_err();
    assert_eq!(err, EasyFraudError::InvalidGenesisHeight);
    assert_eq!(third.root, None);
    assert!(!third.initialized);
}

#[test]
fn genesis_rejects_bad_requests() {
    let (_, a_pk) = keypair(13);
    let record = AccountBalancePair { pubkey: a_pk.to_vec(), balance: 70 }.serialize();

    let mut state = State::new(b"mychain".to_vec());
    let err = state
        .init_chain(RequestInitChain {
            chain_id: b"otherchain".to_vec(),
            initial_height: 1,
            app_state_bytes: record.clone(),
        })
        .unwrap_err();
    assert_eq!(err, EasyFraudError::ChainIDMismatch);

    let err = state
        .init_chain(RequestInitChain {
            chain_id: b"mychain".to_vec(),
            initial_height: 1,
            app_state_bytes: record[..39].to_vec(),
        })
        .unwrap_err();
    assert_eq!(err, EasyFraudError::GenesisAccountDeserialization);

    let err = state
        .init_chain(RequestInitChain {
            chain_id: b"mychain".to_vec(),
            initial_height: 1,
            app_state_bytes: Vec::new(),
        })
        .unwrap_err();
    assert_eq!(err, EasyFraudError::NullApphash);
    assert_eq!(state.root, None);
}

#[test]
fn rejection_reasons_do_not_change_state() {
    let (sender_sk, sender_pk) = keypair(14);
    let (other_sk, other_pk) = keypair(15);
    let mut state = State::new(b"mychain".to_vec());
    genesis(&mut state, &[(&sender_pk, 1000)]);
    let root_before = state.root.clone();

    // zero amount
    let zero = Transaction {
        sender_pubkey: sender_pk.clone(),
        recipient_pubkey: other_pk.clone(),
        amount: 0,
    }
    .sign(&sender_sk);
    assert_eq!(state.verify_and_run_transaction(&zero).unwrap(), None);

    // uninitialized sender
    let unknown = Transaction {
        sender_pubkey: other_pk.clone(),
        recipient_pubkey: sender_pk.clone(),
        amount: 5,
    }
    .sign(&other_sk);
    assert_eq!(state.verify_and_run_transaction(&unknown).unwrap(), None);

    // balance-exhausting transfer: amount equal to the balance is refused
    let exhausting = Transaction {
        sender_pubkey: sender_pk.clone(),
        recipient_pubkey: other_pk.clone(),
        amount: 1000,
    }
    .sign(&sender_sk);
    assert_eq!(state.verify_and_run_transaction(&exhausting).unwrap(), None);

    assert_eq!(state.root, root_before);
    assert_eq!(balance_of(&mut state, &sender_pk).unwrap(), 1000);
}

#[test]
fn proposal_cycle_through_call() {
    let (whale_sk, whale_pk) = keypair(16);
    let (_, r_pk) = keypair(17);
    let mut state = State::new(b"mychain".to_vec());

    let record = AccountBalancePair { pubkey: whale_pk.to_vec(), balance: 5000 }.serialize();
    let resp = state
        .call(Request::InitChain(RequestInitChain {
            chain_id: b"mychain".to_vec(),
            initial_height: 1,
            app_state_bytes: record,
        }))
        .unwrap();
    assert!(matches!(resp, Response::InitChain { .. }));

    let batch = vec![transfer(&whale_sk, &whale_pk, &r_pk, 123)];
    let resp = state
        .call(Request::PrepareProposal(RequestPrepareProposal { txs: batch }))
        .unwrap();
    let pairs = match resp {
        Response::PrepareProposal { txs } => txs,
        _ => panic!("unexpected response"),
    };
    assert_eq!(pairs.len(), 1);
    assert_eq!(pairs[0].len(), 168);
    assert!(state.current_block.is_some());

    let resp = state
        .call(Request::ProcessProposal(RequestProcessProposal { txs: pairs.clone() }))
        .unwrap();
    assert!(matches!(resp, Response::ProcessProposal));

    let mut bad = pairs;
    bad.push(vec![0u8; 167]);
    let err = state
        .call(Request::ProcessProposal(RequestProcessProposal { txs: bad }))
        .unwrap_err();
    assert_eq!(err, EasyFraudError::DeserializePairsError);
}

#[test]
fn revert_restores_the_genesis_root_after_a_batch() {
    let (whale_sk, whale_pk) = keypair(18);
    let mut state = State::new(b"mychain".to_vec());
    let app_hash = genesis(&mut state, &[(&whale_pk, 1000000)]);

    let mut txs = Vec::new();
    for i in 0..5u8 {
        let (_, r_pk) = keypair(200 + i);
        txs.push(transfer(&whale_sk, &whale_pk, &r_pk, 2000));
    }
    let block = IncomingBlock { signed_transactions: txs }.process(&mut state).unwrap();
    assert_eq!(block.pairs.len(), 5);
    assert_ne!(state.root.as_deref(), Some(&app_hash[..]));

    state.revert_volatile();
    assert_eq!(state.root.as_deref(), Some(&app_hash[..]));
    assert_eq!(balance_of(&mut state, &whale_pk).unwrap(), 1000000);
    assert!(state.volatile_diffs.is_empty());
}
