//! Coins of the shielded pool: a value committed under a key derived from
//! the owner's public key and two random strings.
use vstd::prelude::*;
use vstd::bytes::{spec_u64_to_le_bytes, u64_to_le_bytes};
use crate::crypto::{sha256, sha256_of};
use crate::encoding::{hex_decodable, hex_decode, hex_decoded};
use crate::error::LedgerError;
use crate::transaction::copy_bytes;
use crate::wallet::Wallets;

verus! {

/// The 65-byte uncompressed form of a serialized secp256k1 public key, or
/// `None` where the bytes are not a public key.
pub uninterp spec fn uncompressed_key(pub_key: Seq<u8>) -> Option<Seq<u8>>;

/// Relies on secp256k1's `PublicKey::from_slice` and
/// `PublicKey::serialize_uncompressed`, which gives 65 bytes.
#[verifier::external_body]
fn uncompressed_public_key(pub_key: &[u8]) -> (r: Option<Vec<u8>>)
    ensures
        match uncompressed_key(pub_key@) {
            Some(u) => r is Some && r.unwrap()@ == u,
            None => r is None,
        },
        r is Some ==> r.unwrap()@.len() == 65,
{
    Some(secp256k1::PublicKey::from_slice(pub_key).ok()?.serialize_uncompressed().to_vec())
}

/// Relies on `rand::Rng::fill` with the thread's generator: `n` random
/// bytes, of which nothing else is promised.
#[verifier::external_body]
fn random_bytes(n: usize) -> (r: Vec<u8>)
    ensures
        r@.len() == n,
{
    let mut v = vec![0u8; n];
    rand::Rng::fill(&mut rand::thread_rng(), &mut v[..]);
    v
}

/// Enough random bytes to hold `bits` random bits.
pub fn generate_random_bytes(bits: usize) -> (r: Vec<u8>)
    requires
        bits + 7 <= usize::MAX,
    ensures
        r@.len() == (bits + 7) / 8,
{
    random_bytes((bits + 7) / 8)
}

/// The uncompressed public key that a hex string spells, if any.
pub open spec fn key_of_hex(public_key: Seq<char>) -> Option<Seq<u8>> {
    if hex_decodable(public_key) {
        uncompressed_key(hex_decoded(public_key))
    } else {
        None
    }
}

/// `H(r || H(pk || rho)[..16])`.
pub open spec fn coin_key(pk: Seq<u8>, rho: Seq<u8>, r: Seq<u8>) -> Seq<u8> {
    sha256_of(sha256_of(pk + rho).take(16) + r)
}

/// The eight bytes of `v`, most significant first.
pub open spec fn be_bytes(v: u64) -> Seq<u8> {
    Seq::new(8, |i: int| spec_u64_to_le_bytes(v)[7 - i])
}

/// `H(k || 0^192 || v)`, with `v` big-endian.
pub open spec fn coin_commitment(k: Seq<u8>, v: u64) -> Seq<u8> {
    sha256_of(k + Seq::new(24, |i: int| 0u8) + be_bytes(v))
}

/// A coin: the owner's public key (hex), the serial randomness `rho`, the
/// value, the commitment randomness `r` and the commitment.
#[derive(Clone, Debug)]
pub struct Coin {
    pub addr_pk: String,
    pub rho: Vec<u8>,
    pub v: u64,
    pub r: Vec<u8>,
    pub cm: Vec<u8>,
}

fn push_all(out: &mut Vec<u8>, s: &Vec<u8>)
    ensures
        final(out)@ == old(out)@ + s@,
{
    let mut i: usize = 0;
    while i < s.len()
        invariant
            i <= s@.len(),
            out@ == old(out)@ + s@.take(i as int),
        decreases s@.len() - i,
    {
        out.push(s[i]);
        i = i + 1;
        assert(out@ =~= old(out)@ + s@.take(i as int));
    }
    assert(s@.take(s@.len() as int) =~= s@);
}

impl Coin {
    /// A coin of `value` for the owner of `public_key`, with fresh random
    /// `rho` (256 bits) and `r` (384 bits).
    pub fn new(public_key: &String, value: u64) -> (r: Result<Coin, LedgerError>)
        ensures
            match key_of_hex(public_key@) {
                None => r == Err::<Coin, LedgerError>(LedgerError::DecodeError),
                Some(pk) => r is Ok && {
                    let c = r.unwrap();
                    &&& c.addr_pk@ == public_key@
                    &&& c.v == value
                    &&& c.rho@.len() == 32
                    &&& c.r@.len() == 48
                    &&& c.cm@ == coin_commitment(coin_key(pk, c.rho@, c.r@), value)
                },
            },
    {
        let rho = generate_random_bytes(256);
        let r = generate_random_bytes(384);
        let k = match Self::get_k_inner(public_key, &rho, &r) {
            Ok(k) => k,
            Err(e) => return Err(e),
        };
        let cm = Self::get_cm(&k, value);
        Ok(Coin { addr_pk: public_key.clone(), rho, v: value, r, cm })
    }

    /// This coin's key, `H(r || H(pk || rho)[..16])`.
    pub fn get_k(&self) -> (r: Result<Vec<u8>, LedgerError>)
        ensures
            match key_of_hex(self.addr_pk@) {
                None => r == Err::<Vec<u8>, LedgerError>(LedgerError::DecodeError),
                Some(pk) => r is Ok && r.unwrap()@ == coin_key(pk, self.rho@, self.r@) && r.unwrap()@.len() == 32,
            },
    {
        Self::get_k_inner(&self.addr_pk, &self.rho, &self.r)
    }

    fn get_k_inner(public_key: &String, rho: &Vec<u8>, r: &Vec<u8>) -> (res: Result<Vec<u8>, LedgerError>)
        ensures
            match key_of_hex(public_key@) {
                None => res == Err::<Vec<u8>, LedgerError>(LedgerError::DecodeError),
                Some(pk) => res is Ok && res.unwrap()@ == coin_key(pk, rho@, r@) && res.unwrap()@.len() == 32,
            },
    {
        let raw = match hex_decode(public_key.as_str()) {
            Some(b) => b,
            None => return Err(LedgerError::DecodeError),
        };
        let full = match uncompressed_public_key(raw.as_slice()) {
            Some(u) => u,
            None => return Err(LedgerError::DecodeError),
        };
        let mut combined: Vec<u8> = copy_bytes(&full);
        push_all(&mut combined, rho);
        let midk = sha256(combined.as_slice());
        let mut data: Vec<u8> = Vec::new();
        let mut i: usize = 0;
        while i < 16
            invariant
                i <= 16,
                midk@.len() == 32,
                data@ == midk@.take(i as int),
            decreases 16 - i,
        {
            data.push(midk[i]);
            i = i + 1;
            assert(data@ =~= midk@.take(i as int));
        }
        push_all(&mut data, r);
        Ok(sha256(data.as_slice()))
    }

    /// This coin's commitment.
    pub fn cm(&self) -> (r: Vec<u8>)
        ensures
            r@ == self.cm@,
    {
        copy_bytes(&self.cm)
    }

    /// The commitment to value `v` under key `k`: `H(k || 0^192 || v)`.
    pub fn get_cm(k: &Vec<u8>, v: u64) -> (r: Vec<u8>)
        ensures
            r@ == coin_commitment(k@, v),
    {
        let mut data: Vec<u8> = copy_bytes(k);
        let mut z: usize = 0;
        while z < 24
            invariant
                z <= 24,
                data@ == k@ + Seq::new(z as nat, |i: int| 0u8),
            decreases 24 - z,
        {
            data.push(0u8);
            z = z + 1;
            assert(data@ =~= k@ + Seq::new(z as nat, |i: int| 0u8));
        }
        let le = u64_to_le_bytes(v);
        let ghost base = data@;
        let mut j: usize = 0;
        while j < 8
            invariant
                j <= 8,
                le@ == spec_u64_to_le_bytes(v),
                le@.len() == 8,
                data@ == base + be_bytes(v).take(j as int),
            decreases 8 - j,
        {
            data.push(le[7 - j]);
            j = j + 1;
            assert(data@ =~= base + be_bytes(v).take(j as int));
        }
        assert(be_bytes(v).take(8) =~= be_bytes(v));
        sha256(data.as_slice())
    }
}

/// The public part of a mint: the value, the coin key and the commitment.
#[derive(Clone, Debug)]
pub struct TXMint {
    pub v: u64,
    pub k: Vec<u8>,
    pub cm: Vec<u8>,
}

/// A transaction that mints a coin.
#[derive(Clone, Debug)]
pub struct MintTransaction {
    pub id: Vec<u8>,
    pub vout: TXMint,
}

/// Mints a coin of `value` for the wallet under `address` and the
/// transaction that publishes it. Fails with `InvalidAddress` when no
/// wallet is stored there.
pub fn mint(wallets: &Wallets, address: &str, value: u64) -> (r: Result<(Coin, MintTransaction), LedgerError>)
    ensures
        !wallets.addresses().contains(address@) ==> r == Err::<(Coin, MintTransaction), LedgerError>(
            LedgerError::InvalidAddress,
        ),
        r is Ok ==> {
            let (c, tx) = r.unwrap();
            &&& c.v == value
            &&& tx.id@.len() == 0
            &&& tx.vout.v == value
            &&& tx.vout.cm@ == c.cm@
            &&& key_of_hex(c.addr_pk@) is Some
            &&& tx.vout.k@ == coin_key(key_of_hex(c.addr_pk@)->Some_0, c.rho@, c.r@)
            &&& c.cm@ == coin_commitment(tx.vout.k@, value)
        },
{
    let wallet = match wallets.get_wallet(address) {
        Some(w) => w,
        None => return Err(LedgerError::InvalidAddress),
    };
    let c = match Coin::new(&wallet.public_key, value) {
        Ok(c) => c,
        Err(e) => return Err(e),
    };
    let k = match c.get_k() {
        Ok(k) => k,
        Err(e) => return Err(e),
    };
    let cm = c.cm();
    Ok((c, MintTransaction { id: Vec::new(), vout: TXMint { v: value, k, cm } }))
}

/// Whether the commitment of a mint is the commitment to its value under
/// its key.
pub fn verify_mint(tx: &MintTransaction) -> (r: bool)
    ensures
        r == (coin_commitment(tx.vout.k@, tx.vout.v) == tx.vout.cm@),
{
    let cm = Coin::get_cm(&tx.vout.k, tx.vout.v);
    crate::transaction::bytes_eq(&cm, &tx.vout.cm)
}

/// The public part of a pour: the tree root, the spent serial number, the
/// new commitment, the public value, the memo, the signing key, the proof
/// and the encrypted coin.
#[derive(Clone, Debug)]
pub struct TXPour {
    pub rt: Vec<u8>,
    pub old_sn: Vec<u8>,
    pub new_cm: Vec<u8>,
    pub public_value: u64,
    pub info: String,
    pub pk_sig: String,
    pub h: Vec<u8>,
    pub pi_pour: Vec<u8>,
    pub c_info: Vec<u8>,
    pub sigma: Vec<u8>,
}

/// A transaction that pours one coin into another.
#[derive(Clone, Debug)]
pub struct PourTransaction {
    pub id: Vec<u8>,
    pub vout: TXPour,
}

/// The public statement of a pour proof.
#[derive(Clone, Debug)]
pub struct InstanceX {
    pub rt: Vec<u8>,
    pub old_sn: Vec<u8>,
    pub new_cm: Vec<u8>,
    pub public_value: u64,
    pub h_sig: Vec<u8>,
    pub h: Vec<u8>,
}

/// The private witness of a pour proof.
#[derive(Clone, Debug)]
pub struct WitnessA {
    pub path: Vec<Vec<u8>>,
    pub old_coin: Coin,
    pub secret_key: String,
    pub new_coin: Coin,
}

/// The pour proof for a statement and a witness; the proving system is not
/// part of this library, so the proof is empty.
pub fn create_proof(x: &InstanceX, a: &WitnessA) -> (r: Vec<u8>)
    ensures
        r@.len() == 0,
{
    Vec::new()
}

} // verus!
