use sha2::Digest;
use tinyzcash::blockchain::Blockchain;
use tinyzcash::pow::ProofOfWork;
use tinyzcash::{
    address_of_pub_key, checksum, deserialize_block, hash_pub_key, new_coinbase_tx,
    new_utxo_transaction, validate_address, Block, LedgerError, StoredBlock, TXOutput, Transaction,
    Wallet,
};

fn keys(seed: u8) -> (Vec<u8>, Vec<u8>) {
    let secp = secp256k1::Secp256k1::new();
    let sk = secp256k1::SecretKey::from_slice(&[seed; 32]).unwrap();
    let pk = secp256k1::PublicKey::from_secret_key(&secp, &sk);
    (sk.secret_bytes().to_vec(), pk.serialize().to_vec())
}

fn wallet(seed: u8) -> (Wallet, String, Vec<u8>) {
    let (sk, pk) = keys(seed);
    let w = Wallet {
        private_key: hex::encode(&sk),
        public_key: hex::encode(&pk),
        spend_key: String::new(),
        notes: vec![],
    };
    let address = address_of_pub_key(&pk);
    (w, address, hash_pub_key(&pk))
}

#[test]
fn scenario_open_ledger_pays_coinbase() {
    let (_w, addr, pkh) = wallet(1);
    let bc = Blockchain::new(&addr).unwrap();
    assert_eq!(bc.get_balance(&pkh), 10);
    assert_eq!(bc.blocks.len(), 1);
}

#[test]
fn scenario_send_four() {
    let (wa, addr_a, pkh_a) = wallet(1);
    let (_wb, addr_b, pkh_b) = wallet(2);
    let mut bc = Blockchain::new(&addr_a).unwrap();
    let tx = new_utxo_transaction(&addr_a, &addr_b, 4, &wa, &bc).unwrap();
    assert_eq!(tx.vin.len(), 1);
    assert_eq!(tx.vout.len(), 2);
    bc.mine_block(vec![tx]).unwrap();
    assert_eq!(bc.get_balance(&pkh_a), 6);
    assert_eq!(bc.get_balance(&pkh_b), 4);
    assert_eq!(bc.blocks.len(), 2);
    assert_eq!(bc.blocks[1].prev_block_hash, bc.blocks[0].hash);
    assert_eq!(bc.tip, bc.blocks[1].hash);
}

#[test]
fn scenario_insufficient_funds() {
    let (wa, addr_a, pkh_a) = wallet(1);
    let (_wb, addr_b, _) = wallet(2);
    let bc = Blockchain::new(&addr_a).unwrap();
    let r = new_utxo_transaction(&addr_a, &addr_b, 11, &wa, &bc);
    assert_eq!(r.unwrap_err(), LedgerError::InsufficientFunds);
    assert_eq!(bc.blocks.len(), 1);
    assert_eq!(bc.get_balance(&pkh_a), 10);
}

#[test]
fn scenario_corrupted_block_fails_validation() {
    let (_w, addr, _) = wallet(1);
    let cb = new_coinbase_tx(&addr, "coinbase").unwrap();
    let block = Block::mine(vec![cb], vec![], 1_700_000_000).unwrap();
    assert!(ProofOfWork::new(&block).validate());
    let mut bytes = block.serialize();
    // prev hash length (8) and the empty prev hash, the count (8), then the
    // id length (8) of the first transaction: its id starts at 24
    bytes[24] ^= 0x01;
    let corrupted = deserialize_block(&bytes).unwrap();
    assert_ne!(corrupted.transactions[0].id, block.transactions[0].id);
    assert!(!ProofOfWork::new(&corrupted).validate());
}

#[test]
fn mined_block_hash_is_below_target() {
    let (_w, addr, _) = wallet(3);
    let cb = new_coinbase_tx(&addr, "coinbase").unwrap();
    let block = Block::mine(vec![cb], vec![], 42).unwrap();
    assert_eq!(block.hash.len(), 32);
    assert_eq!(block.hash[31], 0);
    let pow = ProofOfWork::new(&block);
    assert!(pow.validate());
    let data = pow.prepare_data(block.nonce);
    assert_eq!(tinyzcash::crypto::hash_pub_key(&data).len(), 20);
    for n in 0..block.nonce {
        let d = pow.prepare_data(n);
        let h = sha2_digest(&d);
        assert_ne!(h[31], 0);
    }
    assert_eq!(sha2_digest(&data), block.hash);
}

fn sha2_digest(d: &[u8]) -> Vec<u8> {
    sha2::Sha256::digest(d).to_vec()
}

#[test]
fn prepare_data_is_deterministic() {
    let (_w, addr, _) = wallet(4);
    let cb = new_coinbase_tx(&addr, "coinbase").unwrap();
    let block = Block::mine(vec![cb], vec![7u8; 32], 99).unwrap();
    let pow = ProofOfWork::new(&block);
    let a = pow.prepare_data(5);
    let b = pow.prepare_data(5);
    assert_eq!(a, b);
    assert_eq!(a.len(), 32 + 32 + 8 + 4 + 8);
    assert_eq!(&a[0..32], &[7u8; 32][..]);
    assert_eq!(&a[64..72], &99i64.to_le_bytes()[..]);
    assert_eq!(&a[72..76], &8u32.to_le_bytes()[..]);
    assert_eq!(&a[76..84], &5u64.to_le_bytes()[..]);
    assert_eq!(block.hash_transactions(), a[32..64].to_vec());
}

#[test]
fn block_round_trip_with_several_transactions() {
    let (wa, addr_a, _) = wallet(1);
    let (_wb, addr_b, _) = wallet(2);
    let bc = Blockchain::new(&addr_a).unwrap();
    let tx = new_utxo_transaction(&addr_a, &addr_b, 3, &wa, &bc).unwrap();
    let mut cb = new_coinbase_tx(&addr_b, "reward").unwrap();
    cb.bundle = Some(vec![1, 2, 3]);
    let block = Block::mine(vec![tx, cb], bc.tip.clone(), 1234).unwrap();
    let bytes = block.serialize();
    let back = deserialize_block(&bytes).unwrap();
    assert_eq!(back.prev_block_hash, block.prev_block_hash);
    assert_eq!(back.timestamp, block.timestamp);
    assert_eq!(back.hash, block.hash);
    assert_eq!(back.nonce, block.nonce);
    assert_eq!(back.transactions.len(), 2);
    for (x, y) in back.transactions.iter().zip(block.transactions.iter()) {
        assert_eq!(x.id, y.id);
        assert_eq!(x.bundle, y.bundle);
        assert_eq!(x.vin.len(), y.vin.len());
        for (i, j) in x.vin.iter().zip(y.vin.iter()) {
            assert_eq!(i.txid, j.txid);
            assert_eq!(i.vout, j.vout);
            assert_eq!(i.signature, j.signature);
            assert_eq!(i.pub_key, j.pub_key);
        }
        for (i, j) in x.vout.iter().zip(y.vout.iter()) {
            assert_eq!(i.value, j.value);
            assert_eq!(i.pub_key_hash, j.pub_key_hash);
        }
    }
    assert_eq!(back.serialize(), bytes);
}

#[test]
fn deserialize_rejects_garbage() {
    assert_eq!(deserialize_block(&[1, 2, 3]).unwrap_err(), LedgerError::DecodeError);
    let (_w, addr, _) = wallet(1);
    let cb = new_coinbase_tx(&addr, "coinbase").unwrap();
    let block = Block::mine(vec![cb], vec![], 5).unwrap();
    let mut bytes = block.serialize();
    bytes.push(0);
    assert_eq!(deserialize_block(&bytes).unwrap_err(), LedgerError::DecodeError);
}

#[test]
fn genesis_block_holds_one_coinbase() {
    let (_w, addr, pkh) = wallet(5);
    let bc = Blockchain::new(&addr).unwrap();
    let g = &bc.blocks[0];
    assert!(g.prev_block_hash.is_empty());
    assert_eq!(g.transactions.len(), 1);
    assert!(g.transactions[0].is_coinbase());
    assert_eq!(g.transactions[0].vout[0].value, 10);
    assert_eq!(g.transactions[0].vout[0].pub_key_hash, pkh);
    assert_eq!(g.transactions[0].vin[0].pub_key, b"coinbase".to_vec());
    assert_eq!(g.transactions[0].id, g.transactions[0].hash());
}

#[test]
fn utxo_values_add_up_after_spending() {
    let (wa, addr_a, pkh_a) = wallet(1);
    let (wb, addr_b, pkh_b) = wallet(2);
    let mut bc = Blockchain::new(&addr_a).unwrap();
    let tx = new_utxo_transaction(&addr_a, &addr_b, 4, &wa, &bc).unwrap();
    bc.mine_block(vec![tx]).unwrap();
    let tx = new_utxo_transaction(&addr_b, &addr_a, 1, &wb, &bc).unwrap();
    bc.mine_block(vec![tx]).unwrap();
    let a: i64 = bc.find_utxo(&pkh_a).iter().map(|o| o.value).sum();
    let b: i64 = bc.find_utxo(&pkh_b).iter().map(|o| o.value).sum();
    assert_eq!(a, 7);
    assert_eq!(b, 3);
    assert_eq!(a + b, 10);
    assert_eq!(bc.find_unspent_transactions(&pkh_a).len(), 2);
}

#[test]
fn spent_output_never_returns() {
    let (wa, addr_a, pkh_a) = wallet(1);
    let (_wb, addr_b, _) = wallet(2);
    let mut bc = Blockchain::new(&addr_a).unwrap();
    let genesis_tx = bc.blocks[0].transactions[0].id.clone();
    let before = bc.find_unspent_outputs(&pkh_a);
    assert_eq!(before.len(), 1);
    assert_eq!(before[0].txid, genesis_tx);
    assert_eq!(before[0].index, 0);
    let tx = new_utxo_transaction(&addr_a, &addr_b, 10, &wa, &bc).unwrap();
    assert_eq!(tx.vout.len(), 1);
    bc.mine_block(vec![tx]).unwrap();
    let after = bc.find_unspent_outputs(&pkh_a);
    assert!(after.iter().all(|u| u.txid != genesis_tx));
    assert_eq!(bc.get_balance(&pkh_a), 0);
}

#[test]
fn sign_then_verify_and_tampering() {
    let (wa, addr_a, _) = wallet(1);
    let (_wb, addr_b, _) = wallet(2);
    let bc = Blockchain::new(&addr_a).unwrap();
    let tx = new_utxo_transaction(&addr_a, &addr_b, 4, &wa, &bc).unwrap();
    assert_eq!(tx.vin[0].signature.len(), 64);
    assert_eq!(bc.verify_transaction(&tx), Ok(true));

    let mut flipped = tx.clone();
    flipped.vin[0].signature[10] ^= 0x01;
    assert_ne!(bc.verify_transaction(&flipped), Ok(true));

    let mut other_key = tx.clone();
    other_key.vin[0].pub_key = keys(9).1;
    assert_eq!(bc.verify_transaction(&other_key), Ok(false));

    let mut b = Blockchain::new(&addr_a).unwrap();
    let mut forged = new_utxo_transaction(&addr_a, &addr_b, 4, &wa, &b).unwrap();
    forged.vout[0].value = 9;
    assert_eq!(b.mine_block(vec![forged]).unwrap_err(), LedgerError::InvalidTransaction);
    assert_eq!(b.blocks.len(), 1);
}

#[test]
fn signing_needs_the_spent_transaction() {
    let (wa, addr_a, _) = wallet(1);
    let (_wb, addr_b, _) = wallet(2);
    let bc = Blockchain::new(&addr_a).unwrap();
    let mut tx = new_utxo_transaction(&addr_a, &addr_b, 4, &wa, &bc).unwrap();
    tx.vin[0].txid = vec![0xaa; 32];
    assert_eq!(
        bc.sign_transaction(&mut tx, &wa.private_key),
        Err(LedgerError::TransactionNotFound)
    );
    assert_eq!(bc.verify_transaction(&tx), Err(LedgerError::TransactionNotFound));
    assert_eq!(bc.sign_transaction(&mut tx, "zz"), Err(LedgerError::DecodeError));
    assert!(bc.find_transaction(&vec![0xaa; 32]).is_err());
}

#[test]
fn find_transaction_walks_the_chain() {
    let (wa, addr_a, _) = wallet(1);
    let (_wb, addr_b, _) = wallet(2);
    let mut bc = Blockchain::new(&addr_a).unwrap();
    let tx = new_utxo_transaction(&addr_a, &addr_b, 4, &wa, &bc).unwrap();
    let id = tx.id.clone();
    bc.mine_block(vec![tx]).unwrap();
    assert_eq!(bc.find_transaction(&id).unwrap().id, id);
    let g = bc.blocks[0].transactions[0].id.clone();
    assert_eq!(bc.find_transaction(&g).unwrap().vout[0].value, 10);
    let mut it = bc.iterator();
    assert_eq!(it.current_hash, bc.tip);
    let top = it.next().unwrap();
    assert_eq!(top.hash, bc.tip);
    assert_eq!(it.current_hash, top.prev_block_hash);
    let bottom = it.next().unwrap();
    assert!(bottom.prev_block_hash.is_empty());
    assert!(it.next().is_none());
}

#[test]
fn spendable_outputs_stop_once_covered() {
    let (wa, addr_a, pkh_a) = wallet(1);
    let (wb, addr_b, _) = wallet(2);
    let mut bc = Blockchain::new(&addr_a).unwrap();
    let tx = new_utxo_transaction(&addr_a, &addr_b, 4, &wa, &bc).unwrap();
    bc.mine_block(vec![tx]).unwrap();
    let tx = new_utxo_transaction(&addr_b, &addr_a, 2, &wb, &bc).unwrap();
    bc.mine_block(vec![tx]).unwrap();
    // A holds 2 (newest) and 6
    let (acc, picked) = bc.find_spendable_outputs(&pkh_a, 1);
    assert_eq!(acc, 2);
    assert_eq!(picked.len(), 1);
    let (acc, picked) = bc.find_spendable_outputs(&pkh_a, 3);
    assert_eq!(acc, 8);
    assert_eq!(picked.len(), 2);
    let (acc, picked) = bc.find_spendable_outputs(&pkh_a, 100);
    assert_eq!(acc, 8);
    assert_eq!(picked.len(), 2);
    let (acc, picked) = bc.find_spendable_outputs(&pkh_a, 0);
    assert_eq!(acc, 0);
    assert!(picked.is_empty());
}

#[test]
fn reopening_from_the_store() {
    let (wa, addr_a, pkh_a) = wallet(1);
    let (_wb, addr_b, _) = wallet(2);
    let mut bc = Blockchain::new(&addr_a).unwrap();
    let tx = new_utxo_transaction(&addr_a, &addr_b, 4, &wa, &bc).unwrap();
    bc.mine_block(vec![tx]).unwrap();
    let stored: Vec<StoredBlock> = bc
        .blocks
        .iter()
        .map(|b| StoredBlock { key: b.hash.clone(), value: b.serialize() })
        .collect();
    let again = Blockchain::open(&bc.tip, &stored).unwrap();
    assert_eq!(again.blocks.len(), 2);
    assert_eq!(again.get_balance(&pkh_a), 6);
    let missing = vec![StoredBlock { key: bc.tip.clone(), value: bc.blocks[1].serialize() }];
    assert_eq!(Blockchain::open(&bc.tip, &missing).unwrap_err(), LedgerError::StoreError);
}

#[test]
fn invalid_addresses_are_refused() {
    assert_eq!(TXOutput::new(1, "0OIl").unwrap_err(), LedgerError::InvalidAddress);
    assert_eq!(new_coinbase_tx("11", "x").unwrap_err(), LedgerError::InvalidAddress);
    assert!(Blockchain::new("0OIl").is_err());
    assert!(!validate_address(&"0OIl".to_string()));
    let (_w, addr, pkh) = wallet(6);
    assert!(validate_address(&addr));
    let out = TXOutput::new(3, &addr).unwrap();
    assert_eq!(out.pub_key_hash, pkh);
    assert!(out.is_locked_with_key(&pkh));
    let mut broken = addr.clone().into_bytes();
    let last = broken.len() - 1;
    broken[last] = if broken[last] == b'2' { b'3' } else { b'2' };
    assert!(!validate_address(&String::from_utf8(broken).unwrap()));
}

#[test]
fn key_hashing_and_checksum_values() {
    assert_eq!(hex::encode(hash_pub_key(b"")), "b472a266d0bd89c13706a4132ccfb16f7c3b9fcb");
    assert_eq!(checksum(b""), vec![0x5d, 0xf6, 0xe0, 0xe2]);
    let (_, pk) = keys(1);
    let mut payload = vec![0u8];
    payload.extend_from_slice(&hash_pub_key(&pk));
    let mut full = payload.clone();
    full.extend_from_slice(&checksum(&payload));
    assert_eq!(address_of_pub_key(&pk), bs58::encode(&full).into_string());
}

#[test]
fn transaction_id_is_digest_without_id() {
    let (_w, addr, _) = wallet(1);
    let tx = new_coinbase_tx(&addr, "coinbase").unwrap();
    let mut cleared: Transaction = tx.clone();
    cleared.id = vec![];
    assert_eq!(tx.id, sha2_digest(&cleared.serialize()));
    let trimmed = tx.trimmed_copy();
    assert!(trimmed.vin[0].pub_key.is_empty());
    assert!(trimmed.vin[0].signature.is_empty());
    assert_eq!(trimmed.id, tx.id);
}

#[test]
fn a_coinbase_is_recognised() {
    let (_w, addr, _) = wallet(1);
    let cb = new_coinbase_tx(&addr, "coinbase").unwrap();
    assert!(cb.is_coinbase());
    let mut not = cb.clone();
    not.vin[0].vout = 0;
    assert!(!not.is_coinbase());
    let (_, pk) = keys(1);
    let mut input = cb.vin[0].clone();
    input.pub_key = pk.clone();
    assert!(input.use_key(&hash_pub_key(&pk)));
    assert!(!input.use_key(&vec![0u8; 20]));
}

#[test]
fn missing_prior_transaction_wins_over_other_failures() {
    let (wa, addr_a, _) = wallet(1);
    let (_wb, addr_b, _) = wallet(2);
    let bc = Blockchain::new(&addr_a).unwrap();
    let mut tx = new_utxo_transaction(&addr_a, &addr_b, 4, &wa, &bc).unwrap();
    tx.vin[0].pub_key = keys(9).1;
    let mut extra = tx.vin[0].clone();
    extra.txid = vec![0x55; 32];
    tx.vin.push(extra);
    assert_eq!(bc.verify_transaction(&tx), Err(LedgerError::TransactionNotFound));
    tx.vin[0].vout = 7;
    assert_eq!(
        bc.sign_transaction(&mut tx, &wa.private_key),
        Err(LedgerError::TransactionNotFound)
    );
}

#[test]
fn reopened_chain_is_the_stored_chain() {
    let (wa, addr_a, _) = wallet(1);
    let (_wb, addr_b, _) = wallet(2);
    let mut bc = Blockchain::new(&addr_a).unwrap();
    let tx = new_utxo_transaction(&addr_a, &addr_b, 4, &wa, &bc).unwrap();
    bc.mine_block(vec![tx]).unwrap();
    let mut stored: Vec<StoredBlock> = bc
        .blocks
        .iter()
        .rev()
        .map(|b| StoredBlock { key: b.hash.clone(), value: b.serialize() })
        .collect();
    let again = Blockchain::open(&bc.tip, &stored).unwrap();
    assert_eq!(again.tip, bc.tip);
    for (x, y) in again.blocks.iter().zip(bc.blocks.iter()) {
        assert_eq!(x.serialize(), y.serialize());
    }
    stored[0].value = vec![9, 9];
    assert_eq!(Blockchain::open(&bc.tip, &stored).unwrap_err(), LedgerError::DecodeError);
}
