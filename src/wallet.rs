//! Keys and addresses. An address is the base58 form of a version byte, the
//! 20-byte hash of a public key and a four-byte checksum.
use vstd::prelude::*;
use crate::crypto::{hash_pub_key, pub_key_hash_of, sha256, sha256_of};
use crate::encoding::{
    bs58_decode, bs58_decoded, bs58_encode, bs58_encoded, hex_decodable, hex_decode, hex_decoded,
    hex_encode, hex_encoded,
};
use crate::error::LedgerError;

verus! {

pub const VERSION: u8 = 0;

/// The number of checksum bytes at the end of an address.
pub const CHECKSUM_LENGTH: usize = 4;

/// The first four bytes of the double SHA-256 of the payload.
pub open spec fn checksum_spec(payload: Seq<u8>) -> Seq<u8> {
    sha256_of(sha256_of(payload)).take(4)
}

/// The version byte followed by the key hash.
pub open spec fn versioned_payload(pub_key: Seq<u8>) -> Seq<u8> {
    seq![VERSION] + pub_key_hash_of(pub_key)
}

/// The address of a raw public key.
pub open spec fn address_spec(pub_key: Seq<u8>) -> Seq<char> {
    bs58_encoded(versioned_payload(pub_key) + checksum_spec(versioned_payload(pub_key)))
}

/// An address is valid when it decodes to at least five bytes whose last
/// four are the checksum of the others.
pub open spec fn address_valid(address: Seq<char>) -> bool {
    match bs58_decoded(address) {
        Some(d) => d.len() >= 5 && d.subrange(d.len() - 4, d.len() as int) == checksum_spec(
            d.subrange(0, d.len() - 4),
        ),
        None => false,
    }
}

/// A shielded note held by a wallet.
#[derive(Clone, Debug)]
pub struct Note {
    pub value: u64,
    pub rseed: [u8; 32],
    pub nf: [u8; 32],
}

/// A key pair, both halves hex-encoded, with the wallet's spending key and
/// shielded notes.
#[derive(Clone, Debug)]
pub struct Wallet {
    /// The 32-byte secret key, hex-encoded.
    pub private_key: String,
    /// The 33-byte compressed public key, hex-encoded.
    pub public_key: String,
    pub spend_key: String,
    pub notes: Vec<Note>,
}

/// Relies on secp256k1's `Secp256k1::generate_keypair` with the thread's
/// random generator, `SecretKey::secret_bytes` and `PublicKey::serialize`:
/// a fresh 32-byte secret key and its 33-byte compressed public key. Nothing
/// is promised of their values.
#[verifier::external_body]
fn generate_keypair() -> (r: (Vec<u8>, Vec<u8>))
    ensures
        r.0@.len() == 32,
        r.1@.len() == 33,
{
    let (sk, pk) = secp256k1::Secp256k1::new().generate_keypair(&mut rand::thread_rng());
    (sk.secret_bytes().to_vec(), pk.serialize().to_vec())
}

/// The checksum of a payload: the first four bytes of its double SHA-256.
pub fn checksum(payload: &[u8]) -> (r: Vec<u8>)
    ensures
        r@ == checksum_spec(payload@),
        r@.len() == 4,
{
    let first = sha256(payload);
    let second = sha256(first.as_slice());
    let mut r: Vec<u8> = Vec::new();
    let mut i: usize = 0;
    while i < CHECKSUM_LENGTH
        invariant
            i <= 4,
            second@.len() == 32,
            r@ == second@.take(i as int),
        decreases 4 - i,
    {
        r.push(second[i]);
        i = i + 1;
        assert(r@ =~= second@.take(i as int));
    }
    r
}

/// The address of a raw public key.
pub fn address_of_pub_key(pub_key: &[u8]) -> (r: String)
    ensures
        r@ == address_spec(pub_key@),
{
    let mut payload: Vec<u8> = vec![VERSION];
    let h = hash_pub_key(pub_key);
    let mut i: usize = 0;
    while i < h.len()
        invariant
            i <= h@.len(),
            payload@ == seq![VERSION] + h@.take(i as int),
        decreases h@.len() - i,
    {
        payload.push(h[i]);
        i = i + 1;
        assert(payload@ =~= seq![VERSION] + h@.take(i as int));
    }
    assert(h@.take(h@.len() as int) =~= h@);
    let c = checksum(payload.as_slice());
    let ghost p = payload@;
    let mut j: usize = 0;
    while j < c.len()
        invariant
            j <= c@.len(),
            payload@ == p + c@.take(j as int),
        decreases c@.len() - j,
    {
        payload.push(c[j]);
        j = j + 1;
        assert(payload@ =~= p + c@.take(j as int));
    }
    assert(c@.take(c@.len() as int) =~= c@);
    bs58_encode(payload.as_slice())
}

/// Whether an address decodes and carries a correct checksum.
pub fn validate_address(address: &String) -> (r: bool)
    ensures
        r == address_valid(address@),
{
    let d = match bs58_decode(address.as_str()) {
        Some(d) => d,
        None => return false,
    };
    if d.len() < 5 {
        return false;
    }
    let split = d.len() - CHECKSUM_LENGTH;
    let mut payload: Vec<u8> = Vec::new();
    let mut i: usize = 0;
    while i < split
        invariant
            i <= split,
            split == d@.len() - 4,
            payload@ == d@.take(i as int),
        decreases split - i,
    {
        payload.push(d[i]);
        i = i + 1;
        assert(payload@ =~= d@.take(i as int));
    }
    let target = checksum(payload.as_slice());
    assert(payload@ =~= d@.subrange(0, split as int));
    assert(d@.len() == d.len());
    let mut k: usize = 0;
    while k < CHECKSUM_LENGTH
        invariant
            k <= 4,
            split + 4 == d@.len(),
            d@.len() <= usize::MAX,
            bs58_decoded(address@) == Some(d@),
            target@ == checksum_spec(d@.subrange(0, split as int)),
            target@.len() == 4,
            forall|j: int| 0 <= j < k ==> d@[split + j] == target@[j],
        decreases 4 - k,
    {
        if d[split + k] != target[k] {
            assert(d@.subrange(split as int, d@.len() as int)[k as int] != target@[k as int]);
            return false;
        }
        k = k + 1;
    }
    assert(d@.subrange(split as int, d@.len() as int) =~= target@);
    true
}

impl Wallet {
    /// A wallet with a fresh key pair and no notes.
    pub fn new() -> (r: Wallet)
        ensures
            hex_decodable(r.private_key@),
            hex_decoded(r.private_key@).len() == 32,
            hex_decodable(r.public_key@),
            hex_decoded(r.public_key@).len() == 33,
            r.notes@.len() == 0,
    {
        let (sk, pk) = generate_keypair();
        let private_key = hex_encode(sk.as_slice());
        let public_key = hex_encode(pk.as_slice());
        proof {
            lemma_hex_round_trip(sk@);
            lemma_hex_round_trip(pk@);
        }
        Wallet { private_key, public_key, spend_key: String::new(), notes: Vec::new() }
    }

    /// The address of this wallet's public key; fails when the stored key is
    /// not hexadecimal.
    pub fn get_address(&self) -> (r: Result<String, LedgerError>)
        ensures
            hex_decodable(self.public_key@) ==> r is Ok && r.unwrap()@ == address_spec(
                hex_decoded(self.public_key@),
            ),
            !hex_decodable(self.public_key@) ==> r == Err::<String, LedgerError>(LedgerError::DecodeError),
    {
        match hex_decode(self.public_key.as_str()) {
            Some(pk) => Ok(address_of_pub_key(pk.as_slice())),
            None => Err(LedgerError::DecodeError),
        }
    }
}

/// Hex-encoding gives a string that decodes back to the same bytes.
proof fn lemma_hex_round_trip(b: Seq<u8>)
    ensures
        hex_decodable(hex_encoded(b)),
        hex_decoded(hex_encoded(b)) == b,
{
    let e = hex_encoded(b);
    assert forall|i: int| 0 <= i < e.len() implies crate::encoding::is_hex_digit(#[trigger] e[i]) by {
        let v = if i % 2 == 0 { b[i / 2] / 16 } else { b[i / 2] % 16 };
        assert(v < 16);
    }
    assert forall|i: int| 0 <= i < b.len() implies #[trigger] hex_decoded(e)[i] == b[i] by {
        let hi = b[i] / 16;
        let lo = b[i] % 16;
        assert((2 * i) / 2 == i);
        assert((2 * i + 1) / 2 == i);
        assert((2 * i) % 2 == 0);
        assert((2 * i + 1) % 2 == 1);
        assert(crate::encoding::hex_digit_value(crate::encoding::lower_hex_digit(hi)) == hi);
        assert(crate::encoding::hex_digit_value(crate::encoding::lower_hex_digit(lo)) == lo);
        assert(16 * hi + lo == b[i]);
    }
    assert(hex_decoded(e) =~= b);
}

} // verus!

verus! {

/// A wallet under its address.
#[derive(Clone, Debug)]
pub struct WalletEntry {
    pub address: String,
    pub wallet: Wallet,
}

/// A shielded address and the address of the wallet it belongs to.
#[derive(Clone, Debug)]
pub struct ZAddressEntry {
    pub z_address: String,
    pub address: String,
}

/// The wallets of a user, each under its address, and the shielded
/// addresses that lead to them. No address appears twice.
#[derive(Clone, Debug)]
pub struct Wallets {
    pub wallets: Vec<WalletEntry>,
    pub zwallets: Vec<ZAddressEntry>,
}

pub open spec fn no_duplicates(s: Seq<Seq<char>>) -> bool {
    forall|i: int, j: int| 0 <= i < s.len() && 0 <= j < s.len() && i != j ==> s[i] != s[j]
}

impl Wallets {
    pub open spec fn addresses(&self) -> Seq<Seq<char>> {
        self.wallets@.map_values(|e: WalletEntry| e.address@)
    }

    pub open spec fn z_addresses(&self) -> Seq<Seq<char>> {
        self.zwallets@.map_values(|e: ZAddressEntry| e.z_address@)
    }

    pub open spec fn wf(&self) -> bool {
        no_duplicates(self.addresses()) && no_duplicates(self.z_addresses())
    }

    /// An empty collection.
    pub fn new() -> (r: Wallets)
        ensures
            r.wf(),
            r.wallets@.len() == 0,
            r.zwallets@.len() == 0,
    {
        let r = Wallets { wallets: Vec::new(), zwallets: Vec::new() };
        assert(r.addresses() =~= Seq::<Seq<char>>::empty());
        assert(r.z_addresses() =~= Seq::<Seq<char>>::empty());
        r
    }

    /// The position of the wallet stored under `address`.
    fn position(&self, address: &str) -> (r: Option<usize>)
        ensures
            match r {
                Some(i) => i < self.wallets@.len() && self.addresses()[i as int] == address@,
                None => forall|i: int| 0 <= i < self.wallets@.len() ==> self.addresses()[i] != address@,
            },
    {
        let key = address.to_owned();
        let mut i: usize = 0;
        while i < self.wallets.len()
            invariant
                i <= self.wallets@.len(),
                key@ == address@,
                forall|j: int| 0 <= j < i ==> self.addresses()[j] != address@,
            decreases self.wallets@.len() - i,
        {
            if self.wallets[i].address == key {
                return Some(i);
            }
            i = i + 1;
        }
        None
    }

    /// The position of the entry for the shielded address `z_address`.
    fn z_position(&self, z_address: &str) -> (r: Option<usize>)
        ensures
            match r {
                Some(i) => i < self.zwallets@.len() && self.z_addresses()[i as int] == z_address@,
                None => forall|i: int| 0 <= i < self.zwallets@.len() ==> self.z_addresses()[i] != z_address@,
            },
    {
        let key = z_address.to_owned();
        let mut i: usize = 0;
        while i < self.zwallets.len()
            invariant
                i <= self.zwallets@.len(),
                key@ == z_address@,
                forall|j: int| 0 <= j < i ==> self.z_addresses()[j] != z_address@,
            decreases self.zwallets@.len() - i,
        {
            if self.zwallets[i].z_address == key {
                return Some(i);
            }
            i = i + 1;
        }
        None
    }

    /// Stores `wallet` under `address`, in place of any wallet stored there.
    pub fn insert_wallet(&mut self, address: String, wallet: Wallet)
        requires
            old(self).wf(),
        ensures
            final(self).wf(),
            final(self).zwallets@ == old(self).zwallets@,
            final(self).addresses().contains(address@),
            forall|a: Seq<char>| old(self).addresses().contains(a) ==> final(self).addresses().contains(a),
            forall|a: Seq<char>| #[trigger] final(self).addresses().contains(a) ==> a == address@ || old(self).addresses().contains(a),
            final(self).wallets@.len() >= old(self).wallets@.len(),
            forall|k: int|
                0 <= k < old(self).wallets@.len() && old(self).addresses()[k] != address@ ==> final(self).wallets@[k]
                    == old(self).wallets@[k],
            exists|j: int|
                0 <= j < final(self).wallets@.len() && final(self).wallets@[j] == (WalletEntry { address, wallet }),
    {
        let ghost old_addrs = self.addresses();
        match self.position(address.as_str()) {
            Some(i) => {
                let ghost e = WalletEntry { address, wallet };
                self.wallets.set(i, WalletEntry { address, wallet });
                assert(self.wallets@[i as int] == e);
                assert(self.addresses() =~= old_addrs.update(i as int, old_addrs[i as int]));
                assert(self.addresses()[i as int] == old_addrs[i as int]);
                assert(self.addresses().contains(old_addrs[i as int]));
            },
            None => {
                let ghost a = address@;
                let ghost e = WalletEntry { address, wallet };
                self.wallets.push(WalletEntry { address, wallet });
                assert(self.wallets@[old_addrs.len() as int] == e);
                assert(self.addresses() =~= old_addrs.push(a));
                assert(self.addresses()[old_addrs.len() as int] == a);
            },
        }
        assert forall|a: Seq<char>| old_addrs.contains(a) implies self.addresses().contains(a) by {
            let j = choose|j: int| 0 <= j < old_addrs.len() && old_addrs[j] == a;
            assert(self.addresses()[j] == a);
        }
    }

    /// Records that the shielded address `z_address` belongs to the wallet
    /// under `address`.
    pub fn insert_z_address(&mut self, z_address: String, address: String)
        requires
            old(self).wf(),
        ensures
            final(self).wf(),
            final(self).wallets@ == old(self).wallets@,
            final(self).z_addresses().contains(z_address@),
    {
        let ghost old_z = self.z_addresses();
        match self.z_position(z_address.as_str()) {
            Some(i) => {
                self.zwallets.set(i, ZAddressEntry { z_address, address });
                assert(self.z_addresses() =~= old_z.update(i as int, old_z[i as int]));
                assert(self.z_addresses()[i as int] == old_z[i as int]);
            },
            None => {
                let ghost a = z_address@;
                self.zwallets.push(ZAddressEntry { z_address, address });
                assert(self.z_addresses() =~= old_z.push(a));
                assert(self.z_addresses()[old_z.len() as int] == a);
            },
        }
    }

    /// Makes a wallet with a fresh key pair, stores it under its address and
    /// returns that address.
    pub fn create_wallet(&mut self) -> (r: Result<String, LedgerError>)
        requires
            old(self).wf(),
        ensures
            final(self).wf(),
            final(self).zwallets@ == old(self).zwallets@,
            r is Err ==> final(self).wallets@ == old(self).wallets@,
            r is Ok ==> {
                let a = r.unwrap()@;
                &&& final(self).addresses().contains(a)
                &&& forall|b: Seq<char>| old(self).addresses().contains(b) ==> final(self).addresses().contains(b)
                &&& forall|b: Seq<char>| #[trigger] final(self).addresses().contains(b) ==> b == a || old(self).addresses().contains(b)
                &&& forall|k: int|
                    0 <= k < old(self).wallets@.len() && old(self).addresses()[k] != a ==> final(self).wallets@[k]
                        == old(self).wallets@[k]
                &&& exists|j: int| {
                    &&& 0 <= j < final(self).wallets@.len()
                    &&& final(self).addresses()[j] == a
                    &&& hex_decodable(final(self).wallets@[j].wallet.public_key@)
                    &&& hex_decoded(final(self).wallets@[j].wallet.public_key@).len() == 33
                    &&& a == address_spec(hex_decoded(final(self).wallets@[j].wallet.public_key@))
                }
            },
    {
        let wallet = Wallet::new();
        let address = match wallet.get_address() {
            Ok(a) => a,
            Err(e) => return Err(e),
        };
        let key = address.clone();
        let ghost w = wallet;
        self.insert_wallet(key, wallet);
        proof {
            let j = choose|j: int|
                0 <= j < self.wallets@.len() && self.wallets@[j] == (WalletEntry { address: key, wallet: w });
            assert(self.addresses()[j] == address@);
        }
        Ok(address)
    }

    /// The addresses of the stored wallets.
    pub fn get_addresses(&self) -> (r: Vec<String>)
        ensures
            r@.map_values(|s: String| s@) == self.addresses(),
    {
        let mut r: Vec<String> = Vec::new();
        let mut i: usize = 0;
        while i < self.wallets.len()
            invariant
                i <= self.wallets@.len(),
                r@.len() == i,
                forall|j: int| 0 <= j < i ==> (#[trigger] r@[j])@ == self.addresses()[j],
            decreases self.wallets@.len() - i,
        {
            r.push(self.wallets[i].address.clone());
            i = i + 1;
        }
        assert(r@.map_values(|s: String| s@) =~= self.addresses());
        r
    }

    /// The shielded addresses on record.
    pub fn get_z_addresses(&self) -> (r: Vec<String>)
        ensures
            r@.map_values(|s: String| s@) == self.z_addresses(),
    {
        let mut r: Vec<String> = Vec::new();
        let mut i: usize = 0;
        while i < self.zwallets.len()
            invariant
                i <= self.zwallets@.len(),
                r@.len() == i,
                forall|j: int| 0 <= j < i ==> (#[trigger] r@[j])@ == self.z_addresses()[j],
            decreases self.zwallets@.len() - i,
        {
            r.push(self.zwallets[i].z_address.clone());
            i = i + 1;
        }
        assert(r@.map_values(|s: String| s@) =~= self.z_addresses());
        r
    }

    /// The wallet stored under `address`.
    pub fn get_wallet<'a>(&'a self, address: &str) -> (r: Option<&'a Wallet>)
        ensures
            r is Some <==> self.addresses().contains(address@),
            r is Some ==> exists|i: int|
                0 <= i < self.wallets@.len() && self.addresses()[i] == address@ && *r.unwrap()
                    == self.wallets@[i].wallet,
    {
        match self.position(address) {
            Some(i) => Some(&self.wallets[i].wallet),
            None => None,
        }
    }

    /// The wallet stored under `address`, to be changed in place.
    pub fn get_mut_wallet<'a>(&'a mut self, address: &str) -> (r: Option<&'a mut Wallet>)
        ensures
            r is Some <==> old(self).addresses().contains(address@),
            r is None ==> *final(self) == *old(self),
            r is Some ==> exists|i: int|
                0 <= i < old(self).wallets@.len() && old(self).addresses()[i] == address@
                    && *r.unwrap() == old(self).wallets@[i].wallet
                    && final(self).zwallets@ == old(self).zwallets@
                    && final(self).wallets@ == old(self).wallets@.update(i, WalletEntry { wallet: *final(r.unwrap()), ..old(self).wallets@[i] }),
    {
        match self.position(address) {
            Some(i) => {
                Some(&mut self.wallets[i].wallet)
            },
            None => None,
        }
    }

    /// The wallet that the shielded address `z_address` belongs to, to be
    /// changed in place.
    pub fn get_mut_z_wallet<'a>(&'a mut self, z_address: &str) -> (r: Option<&'a mut Wallet>)
        ensures
            r is None ==> *final(self) == *old(self),
            r is None ==> !old(self).z_addresses().contains(z_address@) || exists|i: int|
                0 <= i < old(self).zwallets@.len() && old(self).z_addresses()[i] == z_address@
                    && !old(self).addresses().contains(old(self).zwallets@[i].address@),
            r is Some ==> exists|i: int, j: int|
                0 <= i < old(self).zwallets@.len() && 0 <= j < old(self).wallets@.len()
                    && old(self).z_addresses()[i] == z_address@
                    && old(self).addresses()[j] == old(self).zwallets@[i].address@
                    && *r.unwrap() == old(self).wallets@[j].wallet
                    && final(self).zwallets@ == old(self).zwallets@
                    && final(self).wallets@ == old(self).wallets@.update(j, WalletEntry { wallet: *final(r.unwrap()), ..old(self).wallets@[j] }),
    {
        let owner = match self.z_position(z_address) {
            Some(i) => self.zwallets[i].address.clone(),
            None => return None,
        };
        self.get_mut_wallet(owner.as_str())
    }

    /// The wallet that the shielded address `z_address` belongs to.
    pub fn get_z_wallet<'a>(&'a self, z_address: &str) -> (r: Option<&'a Wallet>)
        ensures
            r is Some ==> exists|i: int, j: int|
                0 <= i < self.zwallets@.len() && 0 <= j < self.wallets@.len() && self.z_addresses()[i]
                    == z_address@ && self.addresses()[j] == self.zwallets@[i].address@ && *r.unwrap()
                    == self.wallets@[j].wallet,
            r is None ==> !self.z_addresses().contains(z_address@) || exists|i: int|
                0 <= i < self.zwallets@.len() && self.z_addresses()[i] == z_address@
                    && !self.addresses().contains(self.zwallets@[i].address@),
    {
        match self.z_position(z_address) {
            Some(i) => {
                let owner = self.zwallets[i].address.as_str();
                match self.position(owner) {
                    Some(j) => Some(&self.wallets[j].wallet),
                    None => None,
                }
            },
            None => None,
        }
    }
}

} // verus!

verus! {

/// After a withdrawal from the shielded address `z_address`, drops the note
/// it spent: the first note of the wallet that address belongs to. Fails
/// with `InvalidAddress` when no wallet is found and with
/// `InvalidTransaction` when that wallet holds no note.
pub fn save_note(wallets: &mut Wallets, z_address: &str) -> (r: Result<(), LedgerError>)
    requires
        old(wallets).wf(),
    ensures
        r is Ok <==> exists|i: int, j: int|
            0 <= i < old(wallets).zwallets@.len() && 0 <= j < old(wallets).wallets@.len()
                && old(wallets).z_addresses()[i] == z_address@
                && old(wallets).addresses()[j] == old(wallets).zwallets@[i].address@
                && old(wallets).wallets@[j].wallet.notes@.len() > 0,
        r is Err ==> final(wallets).wallets@ == old(wallets).wallets@ && final(wallets).zwallets@
            == old(wallets).zwallets@,
        r is Ok ==> exists|i: int, j: int|
            0 <= i < old(wallets).zwallets@.len() && 0 <= j < old(wallets).wallets@.len()
                && old(wallets).z_addresses()[i] == z_address@
                && old(wallets).addresses()[j] == old(wallets).zwallets@[i].address@
                && old(wallets).wallets@[j].wallet.notes@.len() > 0
                && final(wallets).zwallets@ == old(wallets).zwallets@
                && final(wallets).wallets@.len() == old(wallets).wallets@.len()
                && (forall|k: int| 0 <= k < old(wallets).wallets@.len() && k != j ==> final(wallets).wallets@[k] == old(wallets).wallets@[k])
                && final(wallets).wallets@[j].address == old(wallets).wallets@[j].address
                && final(wallets).wallets@[j].wallet.private_key == old(wallets).wallets@[j].wallet.private_key
                && final(wallets).wallets@[j].wallet.public_key == old(wallets).wallets@[j].wallet.public_key
                && final(wallets).wallets@[j].wallet.spend_key == old(wallets).wallets@[j].wallet.spend_key
                && final(wallets).wallets@[j].wallet.notes@ == old(wallets).wallets@[j].wallet.notes@.drop_first(),
{
    match wallets.get_mut_z_wallet(z_address) {
        Some(w) => {
            if w.notes.len() == 0 {
                assert(final(wallets).wallets@ =~= old(wallets).wallets@);
                proof {
                    let ow = *old(wallets);
                    assert forall|i: int, j: int|
                        0 <= i < ow.zwallets@.len() && 0 <= j < ow.wallets@.len() && ow.z_addresses()[i]
                            == z_address@ && ow.addresses()[j] == ow.zwallets@[i].address@ implies ow.wallets@[j].wallet.notes@.len() == 0 by {
                        let (i0, j0) = choose|i0: int, j0: int|
                            0 <= i0 < ow.zwallets@.len() && 0 <= j0 < ow.wallets@.len() && ow.z_addresses()[i0]
                                == z_address@ && ow.addresses()[j0] == ow.zwallets@[i0].address@
                                && *w == ow.wallets@[j0].wallet && final(wallets).wallets@ == ow.wallets@.update(
                                j0,
                                WalletEntry { wallet: *final(w), ..ow.wallets@[j0] },
                            );
                        assert(i == i0);
                        assert(j == j0);
                    }
                }
                return Err(LedgerError::InvalidTransaction);
            }
            w.notes.remove(0);
            Ok(())
        },
        None => Err(LedgerError::InvalidAddress),
    }
}

} // verus!
