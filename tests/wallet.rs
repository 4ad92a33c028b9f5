use sha2::Digest;
use tinyzcash::coin::{create_proof, InstanceX, WitnessA};
use tinyzcash::{generate_random_bytes, mint, verify_mint, Coin, LedgerError, Wallet, Wallets};

#[test]
fn fresh_wallet_has_hex_keys() {
    let w = Wallet::new();
    assert_eq!(w.private_key.len(), 64);
    assert_eq!(w.public_key.len(), 66);
    assert!(w.notes.is_empty());
    let address = w.get_address().unwrap();
    assert!(tinyzcash::validate_address(&address));
}

#[test]
fn wallets_store_by_address() {
    let mut ws = Wallets::new();
    let a = ws.create_wallet().unwrap();
    let b = ws.create_wallet().unwrap();
    let addrs = ws.get_addresses();
    assert_eq!(addrs.len(), 2);
    assert!(addrs.contains(&a) && addrs.contains(&b));
    assert!(ws.get_wallet(&a).is_some());
    assert!(ws.get_wallet("nowhere").is_none());
    assert!(ws.get_z_addresses().is_empty());
    ws.insert_z_address("z1".to_string(), a.clone());
    assert_eq!(ws.get_z_addresses(), vec!["z1".to_string()]);
    let zw = ws.get_z_wallet("z1").unwrap();
    assert_eq!(zw.public_key, ws.get_wallet(&a).unwrap().public_key);
    assert!(ws.get_z_wallet("z2").is_none());
}

#[test]
fn mint_commits_to_value() {
    let mut ws = Wallets::new();
    let a = ws.create_wallet().unwrap();
    let (coin, tx) = mint(&ws, &a, 25).unwrap();
    assert_eq!(coin.v, 25);
    assert_eq!(coin.rho.len(), 32);
    assert_eq!(coin.r.len(), 48);
    assert!(verify_mint(&tx));
    assert_eq!(coin.get_k().unwrap(), tx.vout.k);
    assert_eq!(coin.cm(), tx.vout.cm);
    let mut bad = tx;
    bad.vout.v = 26;
    assert!(!verify_mint(&bad));
    assert!(matches!(mint(&ws, "missing", 1), Err(LedgerError::InvalidAddress)));
}

#[test]
fn commitment_formula() {
    let k = vec![3u8; 32];
    let mut data = k.clone();
    data.extend_from_slice(&[0u8; 24]);
    data.extend_from_slice(&7u64.to_be_bytes());
    assert_eq!(Coin::get_cm(&k, 7), sha2::Sha256::digest(&data).to_vec());
}

#[test]
fn coin_key_formula() {
    let w = Wallet::new();
    let c = Coin::new(&w.public_key, 5).unwrap();
    let pk = secp256k1::PublicKey::from_slice(&hex::decode(&w.public_key).unwrap()).unwrap();
    let mut first = pk.serialize_uncompressed().to_vec();
    first.extend_from_slice(&c.rho);
    let mid = sha2::Sha256::digest(&first);
    let mut second = mid[..16].to_vec();
    second.extend_from_slice(&c.r);
    assert_eq!(c.get_k().unwrap(), sha2::Sha256::digest(&second).to_vec());
    assert_eq!(Coin::new(&"xyz".to_string(), 1).unwrap_err(), LedgerError::DecodeError);
}

#[test]
fn random_bytes_round_up() {
    assert_eq!(generate_random_bytes(256).len(), 32);
    assert_eq!(generate_random_bytes(9).len(), 2);
    assert_eq!(generate_random_bytes(0).len(), 0);
}

#[test]
fn pour_proof_is_empty() {
    let w = Wallet::new();
    let c = Coin::new(&w.public_key, 1).unwrap();
    let x = InstanceX { rt: vec![], old_sn: vec![], new_cm: c.cm(), public_value: 0, h_sig: vec![], h: vec![] };
    let a = WitnessA { path: vec![], old_coin: c.clone(), secret_key: w.private_key.clone(), new_coin: c };
    assert!(create_proof(&x, &a).is_empty());
}

#[test]
fn wallets_change_in_place() {
    let mut ws = Wallets::new();
    let a = ws.create_wallet().unwrap();
    ws.get_mut_wallet(&a).unwrap().notes.push(tinyzcash::Note { value: 3, rseed: [1; 32], nf: [2; 32] });
    ws.get_mut_wallet(&a).unwrap().notes.push(tinyzcash::Note { value: 4, rseed: [1; 32], nf: [2; 32] });
    assert_eq!(ws.get_wallet(&a).unwrap().notes.len(), 2);
    assert!(ws.get_mut_wallet("none").is_none());
    ws.insert_z_address("zz".to_string(), a.clone());
    assert_eq!(ws.get_mut_z_wallet("zz").unwrap().notes.len(), 2);
    tinyzcash::wallet::save_note(&mut ws, "zz").unwrap();
    let notes = &ws.get_wallet(&a).unwrap().notes;
    assert_eq!(notes.len(), 1);
    assert_eq!(notes[0].value, 4);
    assert_eq!(tinyzcash::wallet::save_note(&mut ws, "nope"), Err(LedgerError::InvalidAddress));
    tinyzcash::wallet::save_note(&mut ws, "zz").unwrap();
    assert_eq!(tinyzcash::wallet::save_note(&mut ws, "zz"), Err(LedgerError::InvalidTransaction));
}
