use easyfraud::block::{pairs_into_blob, IncomingBlock};
use easyfraud::state::{AccountBalancePair, RequestInitChain, State};
use easyfraud::transaction::Transaction;
use easyfraud::utils::leaf_to_num;
use ed25519_dalek::SigningKey;
use rand::rngs::OsRng;
use rand::Rng;

fn lookup(state: &mut State, key: &[u8]) -> Option<Vec<u8>> {
    let root: Option<[u8; 32]> = state.root.as_ref().map(|v| v.as_slice().try_into().unwrap());
    let k: [u8; 32] = key.try_into().unwrap();
    state
        .tree
        .get(root.as_ref(), &k)
        .unwrap()
        .map(|h| h.to_vec())
}

// full lifecycle test
#[test]
fn test_block() {
    let mut csprng = OsRng;

    let mut state = State::new(b"mychain".to_vec());

    let genesis_whale: SigningKey = SigningKey::generate(&mut csprng);
    let genesis_account = AccountBalancePair {
        pubkey: genesis_whale.verifying_key().to_bytes().to_vec(),
        balance: 1000000000,
    };
    let init_chain = RequestInitChain {
        chain_id: b"mychain".to_vec(),
        initial_height: 1,
        app_state_bytes: genesis_account.serialize(),
    };
    println!("root: {:?}", state.root);
    state.init_chain(init_chain).unwrap();
    println!("root: {:?}", state.root);
    let balance = lookup(&mut state, &genesis_whale.verifying_key().to_bytes());
    println!("{:?}", balance);
    println!("balance {}", leaf_to_num(&balance.unwrap()));

    let recipients: Vec<SigningKey> =
        std::iter::repeat_with(|| SigningKey::generate(&mut csprng)).take(100).collect();
    let key_bytes = genesis_whale.verifying_key().to_bytes();
    let secret_bytes = genesis_whale.to_bytes();
    let block_txns = recipients
        .iter()
        .map(|r| {
            Transaction {
                sender_pubkey: key_bytes.to_vec(),
                recipient_pubkey: r.verifying_key().to_bytes().to_vec(),
                amount: csprng.gen_range(1000..=3000),
            }
            .sign(&secret_bytes)
            .serialize()
        })
        .collect::<Vec<Vec<u8>>>();
    assert!(block_txns.iter().all(|tx| tx.len() == 136));
    let incoming_block = IncomingBlock { signed_transactions: block_txns };
    let outgoing_block = incoming_block.process(&mut state).unwrap();
    assert_eq!(outgoing_block.pairs.len(), 100);
    let blob = pairs_into_blob(&outgoing_block.pairs);
    assert_eq!(blob.len(), 100 / 3);
}

#[test]
fn test_revert() {
    let mut csprng = OsRng;

    let mut state = State::new(b"mychain".to_vec());

    let genesis_whale: SigningKey = SigningKey::generate(&mut csprng);
    let genesis_account = AccountBalancePair {
        pubkey: genesis_whale.verifying_key().to_bytes().to_vec(),
        balance: 1000000000,
    };
    let init_chain = RequestInitChain {
        chain_id: b"mychain".to_vec(),
        initial_height: 1,
        app_state_bytes: genesis_account.serialize(),
    };
    println!("root: {:?}", state.root);
    state.init_chain(init_chain).unwrap();
    println!("root: {:?}", state.root);
    let balance = lookup(&mut state, &genesis_whale.verifying_key().to_bytes());
    println!("{:?}", balance);
    println!("balance {}", leaf_to_num(&balance.unwrap()));

    let recipients: Vec<SigningKey> =
        std::iter::repeat_with(|| SigningKey::generate(&mut csprng)).take(100).collect();
    let key_bytes = genesis_whale.verifying_key().to_bytes();
    let secret_bytes = genesis_whale.to_bytes();
    let tx = Transaction {
        sender_pubkey: key_bytes.to_vec(),
        recipient_pubkey: recipients[0].verifying_key().to_bytes().to_vec(),
        amount: 3000,
    }
    .sign(&secret_bytes);

    let old_state = state.root.clone();
    state.verify_and_run_transaction(&tx).unwrap();
    let new_state = state.root.clone();
    assert_ne!(old_state, new_state);
    state.revert_volatile();
    assert_eq!(old_state, state.root);
}

#[test]
fn test_txns_with_invalid() {
    let mut csprng = OsRng;

    let mut state = State::new(b"mychain".to_vec());

    let genesis_whale: SigningKey = SigningKey::generate(&mut csprng);
    let genesis_account = AccountBalancePair {
        pubkey: genesis_whale.verifying_key().to_bytes().to_vec(),
        balance: 1000000000,
    };
    let init_chain = RequestInitChain {
        chain_id: b"mychain".to_vec(),
        initial_height: 1,
        app_state_bytes: genesis_account.serialize(),
    };
    println!("root: {:?}", state.root);
    state.init_chain(init_chain).unwrap();
    println!("root: {:?}", state.root);
    let balance = lookup(&mut state, &genesis_whale.verifying_key().to_bytes());
    println!("{:?}", balance);
    println!("balance {}", leaf_to_num(&balance.unwrap()));

    let recipients: Vec<SigningKey> =
        std::iter::repeat_with(|| SigningKey::generate(&mut csprng)).take(100).collect();
    let key_bytes = genesis_whale.verifying_key().to_bytes();
    let secret_bytes = genesis_whale.to_bytes();
    let mut block_txns = recipients
        .iter()
        .map(|r| {
            Transaction {
                sender_pubkey: key_bytes.to_vec(),
                recipient_pubkey: r.verifying_key().to_bytes().to_vec(),
                amount: csprng.gen_range(1000..=3000),
            }
            .sign(&secret_bytes)
            .serialize()
        })
        .collect::<Vec<Vec<u8>>>();
    // break two transactions by changing a byte in the signature
    block_txns[69][78] = if block_txns[69][78] == 15 { 16 } else { 15 };
    block_txns[42][78] = if block_txns[42][78] == 1 { 2 } else { 1 };
    let n_txns = block_txns.len();
    let incoming_block = IncomingBlock { signed_transactions: block_txns };
    let outgoing_block = incoming_block.process(&mut state).unwrap();
    assert_eq!(outgoing_block.pairs.len(), n_txns - 2);
}
