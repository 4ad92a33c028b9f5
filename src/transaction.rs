use vstd::prelude::*;
use crate::codec::{enc_tx, put_tx};
use crate::crypto::{
    ecdsa_outcome, ecdsa_sign, ecdsa_signature, ecdsa_verify, hash_pub_key, pub_key_hash_of, sha256,
    sha256_of,
};
use crate::encoding::{bs58_decode, bs58_decoded};
use crate::error::LedgerError;
use crate::blockchain::{scan_txs, spend_count, sum_values, utxo_views, utxos, Blockchain, UtxoModel};
use crate::encoding::{hex_decodable, hex_decode, hex_decoded};
use crate::wallet::Wallet;
use vstd::slice::slice_to_vec;
use vstd::utf8::encode_utf8;

verus! {

/// The mathematical value of a transaction input.
pub struct InputModel {
    pub txid: Seq<u8>,
    pub vout: i32,
    pub signature: Seq<u8>,
    pub pub_key: Seq<u8>,
}

/// The mathematical value of a transaction output.
pub struct OutputModel {
    pub value: i64,
    pub pub_key_hash: Seq<u8>,
}

/// The mathematical value of a transaction.
pub struct TxModel {
    pub id: Seq<u8>,
    pub vin: Seq<InputModel>,
    pub vout: Seq<OutputModel>,
    pub bundle: Option<Seq<u8>>,
}

/// A claim on an output of an earlier transaction.
#[derive(Clone, Debug)]
pub struct TXInput {
    /// Id of the transaction whose output is spent.
    pub txid: Vec<u8>,
    /// Index of the spent output; -1 in a coinbase input.
    pub vout: i32,
    pub signature: Vec<u8>,
    /// The spender's raw public key.
    pub pub_key: Vec<u8>,
}

/// An amount locked to the hash of a public key.
#[derive(Clone, Debug)]
pub struct TXOutput {
    pub value: i64,
    pub pub_key_hash: Vec<u8>,
}

/// A value transfer: inputs that spend earlier outputs, new outputs, and an
/// optional opaque shielded-transfer payload.
#[derive(Clone, Debug)]
pub struct Transaction {
    pub id: Vec<u8>,
    pub vin: Vec<TXInput>,
    pub vout: Vec<TXOutput>,
    pub bundle: Option<Vec<u8>>,
}

impl View for TXInput {
    type V = InputModel;

    open spec fn view(&self) -> InputModel {
        InputModel {
            txid: self.txid@,
            vout: self.vout,
            signature: self.signature@,
            pub_key: self.pub_key@,
        }
    }
}

impl View for TXOutput {
    type V = OutputModel;

    open spec fn view(&self) -> OutputModel {
        OutputModel { value: self.value, pub_key_hash: self.pub_key_hash@ }
    }
}

pub open spec fn bundle_view(b: Option<Vec<u8>>) -> Option<Seq<u8>> {
    match b {
        Some(v) => Some(v@),
        None => None,
    }
}

impl View for Transaction {
    type V = TxModel;

    open spec fn view(&self) -> TxModel {
        TxModel {
            id: self.id@,
            vin: self.vin@.map_values(|i: TXInput| i@),
            vout: self.vout@.map_values(|o: TXOutput| o@),
            bundle: bundle_view(self.bundle),
        }
    }
}

/// The transaction with its id cleared: what the id is computed over.
pub open spec fn without_id(t: TxModel) -> TxModel {
    TxModel { id: Seq::empty(), ..t }
}

/// The id of a transaction: the digest of its encoding with the id cleared.
pub open spec fn tx_hash(t: TxModel) -> Seq<u8> {
    sha256_of(enc_tx(without_id(t)))
}

/// An input with its signature and public key cleared.
pub open spec fn trimmed_input(i: InputModel) -> InputModel {
    InputModel { txid: i.txid, vout: i.vout, signature: Seq::empty(), pub_key: Seq::empty() }
}

/// The copy of a transaction that signatures are computed over: every input
/// stripped of its signature and public key, all else kept.
pub open spec fn trimmed(t: TxModel) -> TxModel {
    TxModel { vin: t.vin.map_values(|i: InputModel| trimmed_input(i)), ..t }
}

/// The digest signed for input `i` when the output it spends is locked to
/// `locked_to`: the id of the trimmed copy in which that input carries the
/// key hash in place of a public key.
pub open spec fn sig_digest(t: TxModel, i: int, locked_to: Seq<u8>) -> Seq<u8> {
    let tr = trimmed(t);
    tx_hash(TxModel { vin: tr.vin.update(i, InputModel { pub_key: locked_to, ..tr.vin[i] }), ..tr })
}

/// `j` is the first position in `txs` of a transaction with id `id`.
pub open spec fn is_first_with_id(txs: Seq<TxModel>, id: Seq<u8>, j: int) -> bool {
    &&& 0 <= j < txs.len()
    &&& txs[j].id == id
    &&& forall|k: int| 0 <= k < j ==> (#[trigger] txs[k]).id != id
}

/// The first transaction in `txs` with id `id`.
pub open spec fn find_tx(txs: Seq<TxModel>, id: Seq<u8>) -> Option<TxModel> {
    if exists|j: int| is_first_with_id(txs, id, j) {
        Some(txs[choose|j: int| is_first_with_id(txs, id, j)])
    } else {
        None
    }
}

/// The key hash of the output that input `i` spends, as found in `prevs`.
pub open spec fn spent_output(t: TxModel, prevs: Seq<TxModel>, i: int) -> Option<OutputModel> {
    match find_tx(prevs, t.vin[i].txid) {
        Some(p) => if 0 <= t.vin[i].vout < p.vout.len() {
            Some(p.vout[t.vin[i].vout as int])
        } else {
            None
        },
        None => None,
    }
}

/// The outcome of checking input `i`: `Ok(true)` when its key owns the spent
/// output and its signature holds.
pub open spec fn input_check(t: TxModel, prevs: Seq<TxModel>, i: int) -> Result<bool, LedgerError> {
    let inp = t.vin[i];
    match find_tx(prevs, inp.txid) {
        None => Err(LedgerError::TransactionNotFound),
        Some(p) => if !(0 <= inp.vout < p.vout.len()) {
            Ok(false)
        } else if pub_key_hash_of(inp.pub_key) != p.vout[inp.vout as int].pub_key_hash {
            Ok(false)
        } else {
            match ecdsa_outcome(
                sig_digest(t, i, p.vout[inp.vout as int].pub_key_hash),
                inp.signature,
                inp.pub_key,
            ) {
                None => Err(LedgerError::DecodeError),
                Some(ok) => Ok(ok),
            }
        },
    }
}

/// The outcome of checking the inputs from `i` on, stopping at the first
/// that does not pass.
pub open spec fn verify_from(t: TxModel, prevs: Seq<TxModel>, i: nat) -> Result<bool, LedgerError>
    decreases t.vin.len() - i,
{
    if i >= t.vin.len() {
        Ok(true)
    } else {
        match input_check(t, prevs, i as int) {
            Ok(true) => verify_from(t, prevs, i + 1),
            other => other,
        }
    }
}

proof fn lemma_verify_from_unfold(t: TxModel, prevs: Seq<TxModel>, i: nat)
    requires
        i < t.vin.len(),
    ensures
        verify_from(t, prevs, i) == match input_check(t, prevs, i as int) {
            Ok(true) => verify_from(t, prevs, i + 1),
            other => other,
        },
{
}

proof fn lemma_first_sign_error_unfold(t: TxModel, prevs: Seq<TxModel>, sk: Seq<u8>, i: nat)
    requires
        i < t.vin.len(),
    ensures
        first_sign_error(t, prevs, sk, i) == match signature_for(t, prevs, sk, i as int) {
            Err(e) => Some(e),
            Ok(_) => first_sign_error(t, prevs, sk, i + 1),
        },
{
}

/// The outcome of verifying a transaction against the transactions it spends.
/// Every input of `t` finds the transaction it spends in `prevs`.
pub open spec fn all_found(t: TxModel, prevs: Seq<TxModel>) -> bool {
    forall|j: int| 0 <= j < t.vin.len() ==> find_tx(prevs, (#[trigger] t.vin[j]).txid) is Some
}

/// The outcome of verifying a transaction against the transactions it
/// spends: every lookup is resolved first, and a missing one aborts.
pub open spec fn verify_spec(t: TxModel, prevs: Seq<TxModel>) -> Result<bool, LedgerError> {
    if is_coinbase_spec(t) {
        Ok(true)
    } else if !all_found(t, prevs) {
        Err(LedgerError::TransactionNotFound)
    } else {
        verify_from(t, prevs, 0)
    }
}

/// Why signing `t` fails, if it does: a missing spent transaction first,
/// then the first input that cannot be signed.
pub open spec fn sign_error(t: TxModel, prevs: Seq<TxModel>, secret_key: Seq<u8>) -> Option<LedgerError> {
    if !all_found(t, prevs) {
        Some(LedgerError::TransactionNotFound)
    } else {
        first_sign_error(t, prevs, secret_key, 0)
    }
}

/// The signature that input `i` receives from `secret_key`.
pub open spec fn signature_for(t: TxModel, prevs: Seq<TxModel>, secret_key: Seq<u8>, i: int) -> Result<
    Seq<u8>,
    LedgerError,
> {
    match find_tx(prevs, t.vin[i].txid) {
        None => Err(LedgerError::TransactionNotFound),
        Some(p) => if !(0 <= t.vin[i].vout < p.vout.len()) {
            Err(LedgerError::InvalidTransaction)
        } else {
            match ecdsa_signature(
                sig_digest(t, i, p.vout[t.vin[i].vout as int].pub_key_hash),
                secret_key,
            ) {
                None => Err(LedgerError::DecodeError),
                Some(s) => Ok(s),
            }
        },
    }
}

/// The error of the first input from `i` on that cannot be signed.
pub open spec fn first_sign_error(t: TxModel, prevs: Seq<TxModel>, secret_key: Seq<u8>, i: nat) -> Option<
    LedgerError,
>
    decreases t.vin.len() - i,
{
    if i >= t.vin.len() {
        None
    } else {
        match signature_for(t, prevs, secret_key, i as int) {
            Err(e) => Some(e),
            Ok(_) => first_sign_error(t, prevs, secret_key, i + 1),
        }
    }
}

/// Input `i` carrying its signature.
pub open spec fn signed_input(t: TxModel, prevs: Seq<TxModel>, secret_key: Seq<u8>, i: int) -> InputModel {
    InputModel { signature: signature_for(t, prevs, secret_key, i)->Ok_0, ..t.vin[i] }
}

/// The transaction with every input carrying its signature.
pub open spec fn signed(t: TxModel, prevs: Seq<TxModel>, secret_key: Seq<u8>) -> TxModel {
    TxModel { vin: Seq::new(t.vin.len(), |i: int| signed_input(t, prevs, secret_key, i)), ..t }
}

proof fn lemma_first_exists(txs: Seq<TxModel>, id: Seq<u8>, j: int)
    requires
        0 <= j < txs.len(),
        txs[j].id == id,
    ensures
        exists|f: int| is_first_with_id(txs, id, f),
    decreases j,
{
    if exists|k: int| 0 <= k < j && (#[trigger] txs[k]).id == id {
        let k = choose|k: int| 0 <= k < j && (#[trigger] txs[k]).id == id;
        lemma_first_exists(txs, id, k);
    } else {
        assert(is_first_with_id(txs, id, j));
    }
}

proof fn lemma_find_tx_found(txs: Seq<TxModel>, id: Seq<u8>)
    requires
        find_tx(txs, id) is Some,
    ensures
        find_tx(txs, id)->Some_0.id == id,
        exists|j: int| 0 <= j < txs.len() && txs[j] == find_tx(txs, id)->Some_0,
{
    let j = choose|j: int| is_first_with_id(txs, id, j);
    assert(txs[j] == find_tx(txs, id)->Some_0);
}

/// `prevs` answers every lookup by an input of `t` as `all` does, when each
/// transaction in `prevs` is what `all` gives for its id and every id that
/// `all` knows has a transaction in `prevs`.
pub proof fn lemma_lookup_agree(t: TxModel, prevs: Seq<TxModel>, all: Seq<TxModel>, i: int)
    requires
        0 <= i < t.vin.len(),
        forall|q: int| 0 <= q < prevs.len() ==> find_tx(all, (#[trigger] prevs[q]).id) == Some(prevs[q]),
        find_tx(all, t.vin[i].txid) is Some ==> exists|q: int|
            0 <= q < prevs.len() && (#[trigger] prevs[q]).id == t.vin[i].txid,
    ensures
        find_tx(prevs, t.vin[i].txid) == find_tx(all, t.vin[i].txid),
{
    let id = t.vin[i].txid;
    if find_tx(prevs, id) is Some {
        lemma_find_tx_found(prevs, id);
        let q = choose|q: int| 0 <= q < prevs.len() && prevs[q] == find_tx(prevs, id)->Some_0;
        assert(find_tx(all, prevs[q].id) == Some(prevs[q]));
    } else if find_tx(all, id) is Some {
        let q = choose|q: int| 0 <= q < prevs.len() && (#[trigger] prevs[q]).id == id;
        lemma_first_exists(prevs, id, q);
    }
}

/// Verification depends on the transactions it is given only through the
/// lookups by the inputs' ids.
pub proof fn lemma_verify_same_lookups(t: TxModel, a: Seq<TxModel>, b: Seq<TxModel>, i: nat)
    requires
        forall|j: int| 0 <= j < t.vin.len() ==> find_tx(a, (#[trigger] t.vin[j]).txid) == find_tx(b, t.vin[j].txid),
    ensures
        verify_from(t, a, i) == verify_from(t, b, i),
        all_found(t, a) == all_found(t, b),
    decreases t.vin.len() - i,
{
    if i < t.vin.len() {
        assert(find_tx(a, t.vin[i as int].txid) == find_tx(b, t.vin[i as int].txid));
        lemma_verify_same_lookups(t, a, b, i + 1);
    }
}

/// Signing depends on the transactions it is given only through the lookups
/// by the inputs' ids.
pub proof fn lemma_sign_same_lookups(t: TxModel, a: Seq<TxModel>, b: Seq<TxModel>, sk: Seq<u8>, i: nat)
    requires
        forall|j: int| 0 <= j < t.vin.len() ==> find_tx(a, (#[trigger] t.vin[j]).txid) == find_tx(b, t.vin[j].txid),
    ensures
        first_sign_error(t, a, sk, i) == first_sign_error(t, b, sk, i),
        signed(t, a, sk) == signed(t, b, sk),
        all_found(t, a) == all_found(t, b),
    decreases t.vin.len() - i,
{
    if i < t.vin.len() {
        assert(find_tx(a, t.vin[i as int].txid) == find_tx(b, t.vin[i as int].txid));
        lemma_sign_same_lookups(t, a, b, sk, i + 1);
    }
    assert forall|j: int| 0 <= j < t.vin.len() implies signature_for(t, a, sk, j) == signature_for(t, b, sk, j) by {
        assert(find_tx(a, t.vin[j].txid) == find_tx(b, t.vin[j].txid));
    }
    assert(signed(t, a, sk).vin =~= signed(t, b, sk).vin);
}

/// Signing changes only signatures, which the trimmed copy clears: the
/// digest of every input is the same before and after.
pub proof fn lemma_signing_keeps_digests(t: TxModel, prevs: Seq<TxModel>, sk: Seq<u8>, i: int, locked_to: Seq<u8>)
    requires
        0 <= i < t.vin.len(),
    ensures
        sig_digest(signed(t, prevs, sk), i, locked_to) == sig_digest(t, i, locked_to),
{
    let st = signed(t, prevs, sk);
    assert(trimmed(st).vin =~= trimmed(t).vin);
    assert(trimmed(st) == trimmed(t));
}

proof fn lemma_no_sign_error(t: TxModel, prevs: Seq<TxModel>, sk: Seq<u8>, i: nat)
    requires
        first_sign_error(t, prevs, sk, i) is None,
    ensures
        forall|j: int| i <= j < t.vin.len() ==> (#[trigger] signature_for(t, prevs, sk, j)) is Ok,
    decreases t.vin.len() - i,
{
    if i < t.vin.len() {
        lemma_no_sign_error(t, prevs, sk, i + 1);
    }
}

/// Input `i` of `t` would pass verification once signed with `sk`: its key
/// owns the output it spends and the ECDSA check accepts the signature that
/// `sk` makes over its digest.
pub open spec fn accepts_own_signature(t: TxModel, prevs: Seq<TxModel>, sk: Seq<u8>, i: int) -> bool {
    &&& spent_output(t, prevs, i) is Some
    &&& pub_key_hash_of(t.vin[i].pub_key) == spent_output(t, prevs, i)->Some_0.pub_key_hash
    &&& ecdsa_outcome(
        sig_digest(t, i, spent_output(t, prevs, i)->Some_0.pub_key_hash),
        signature_for(t, prevs, sk, i)->Ok_0,
        t.vin[i].pub_key,
    ) == Some(true)
}

/// Verifying a transaction just signed, against the same transactions,
/// checks each input's key against the output it spends and each signature
/// against the digest it was made over: it succeeds when every input's key
/// owns that output and the ECDSA check accepts those signatures.
pub proof fn lemma_sign_then_verify(t: TxModel, prevs: Seq<TxModel>, sk: Seq<u8>)
    requires
        !is_coinbase_spec(t),
        sign_error(t, prevs, sk) is None,
        forall|i: int| 0 <= i < t.vin.len() ==> accepts_own_signature(t, prevs, sk, i),
    ensures
        verify_spec(signed(t, prevs, sk), prevs) == Ok::<bool, LedgerError>(true),
{
    lemma_no_sign_error(t, prevs, sk, 0);
    let st = signed(t, prevs, sk);
    assert(!is_coinbase_spec(st));
    assert forall|j: int| 0 <= j < st.vin.len() implies find_tx(prevs, (#[trigger] st.vin[j]).txid) is Some by {
        assert(st.vin[j].txid == t.vin[j].txid);
    }
    lemma_signed_verifies_from(t, prevs, sk, 0);
}

proof fn lemma_signed_verifies_from(t: TxModel, prevs: Seq<TxModel>, sk: Seq<u8>, i: nat)
    requires
        forall|j: int| 0 <= j < t.vin.len() ==> (#[trigger] signature_for(t, prevs, sk, j)) is Ok,
        forall|j: int| 0 <= j < t.vin.len() ==> accepts_own_signature(t, prevs, sk, j),
    ensures
        verify_from(signed(t, prevs, sk), prevs, i) == Ok::<bool, LedgerError>(true),
    decreases t.vin.len() - i,
{
    let st = signed(t, prevs, sk);
    if i < t.vin.len() {
        lemma_signed_verifies_from(t, prevs, sk, i + 1);
        let ii = i as int;
        assert(accepts_own_signature(t, prevs, sk, ii));
        assert(signature_for(t, prevs, sk, ii) is Ok);
        let h = spent_output(t, prevs, ii)->Some_0.pub_key_hash;
        lemma_signing_keeps_digests(t, prevs, sk, ii, h);
        assert(st.vin[ii] == signed_input(t, prevs, sk, ii));
        assert(input_check(st, prevs, ii) == Ok::<bool, LedgerError>(true));
    }
}

/// The amount that a coinbase transaction pays.
pub const SUBSIDY: i64 = 10;

/// The key hash that an address carries: the base58 decoding without its
/// version byte and its four checksum bytes.
pub open spec fn address_key_hash(address: Seq<char>) -> Option<Seq<u8>> {
    match bs58_decoded(address) {
        Some(d) => if d.len() >= 5 {
            Some(d.subrange(1, d.len() - 4))
        } else {
            None
        },
        None => None,
    }
}

/// The key hash that an address carries.
pub fn address_to_pub_key_hash(address: &str) -> (r: Result<Vec<u8>, LedgerError>)
    ensures
        match address_key_hash(address@) {
            Some(h) => r is Ok && r.unwrap()@ == h,
            None => r == Err::<Vec<u8>, LedgerError>(LedgerError::InvalidAddress),
        },
{
    let decoded = match bs58_decode(address) {
        Some(d) => d,
        None => return Err(LedgerError::InvalidAddress),
    };
    if decoded.len() < 5 {
        return Err(LedgerError::InvalidAddress);
    }
    let end = decoded.len() - 4;
    let mut h: Vec<u8> = Vec::new();
    let mut i: usize = 1;
    while i < end
        invariant
            1 <= i <= end,
            end == decoded@.len() - 4,
            h@ == decoded@.subrange(1, i as int),
        decreases end - i,
    {
        h.push(decoded[i]);
        i = i + 1;
        assert(h@ =~= decoded@.subrange(1, i as int));
    }
    Ok(h)
}

/// The coinbase transaction paying `SUBSIDY` to the key hash `to`, with
/// `data` as its input's key bytes, before its id is set.
pub open spec fn coinbase_model(to: Seq<u8>, data: Seq<u8>) -> TxModel {
    TxModel {
        id: Seq::empty(),
        vin: seq![InputModel { txid: Seq::empty(), vout: -1i32, signature: Seq::empty(), pub_key: data }],
        vout: seq![OutputModel { value: SUBSIDY, pub_key_hash: to }],
        bundle: None,
    }
}

/// A coinbase transaction has one input that names no transaction and the
/// output index -1.
pub open spec fn is_coinbase_spec(tx: TxModel) -> bool {
    tx.vin.len() == 1 && tx.vin[0].txid.len() == 0 && tx.vin[0].vout == -1
}

pub fn copy_bytes(b: &Vec<u8>) -> (r: Vec<u8>)
    ensures
        r@ == b@,
{
    let r = b.clone();
    assert(r@ =~= b@);
    r
}

impl TXInput {
    pub fn duplicate(&self) -> (r: TXInput)
        ensures
            r@ == self@,
    {
        TXInput {
            txid: copy_bytes(&self.txid),
            vout: self.vout,
            signature: copy_bytes(&self.signature),
            pub_key: copy_bytes(&self.pub_key),
        }
    }
}

impl TXInput {
    /// Whether this input's public key hashes to the given key hash.
    pub fn use_key(&self, pub_key_hash: &Vec<u8>) -> (r: bool)
        ensures
            r == (pub_key_hash_of(self.pub_key@) == pub_key_hash@),
    {
        let locking_hash = hash_pub_key(self.pub_key.as_slice());
        bytes_eq(&locking_hash, pub_key_hash)
    }
}

/// The first transaction in `txs` whose id is `id`.
pub fn find_in(txs: &Vec<Transaction>, id: &Vec<u8>) -> (r: Option<usize>)
    ensures
        match find_tx(txs@.map_values(|t: Transaction| t@), id@) {
            Some(m) => r is Some && r.unwrap() < txs@.len() && txs@[r.unwrap() as int]@ == m,
            None => r is None,
        },
{
    let ghost ms = txs@.map_values(|t: Transaction| t@);
    let mut i: usize = 0;
    while i < txs.len()
        invariant
            i <= txs@.len(),
            ms == txs@.map_values(|t: Transaction| t@),
            forall|k: int| 0 <= k < i ==> (#[trigger] ms[k]).id != id@,
        decreases txs@.len() - i,
    {
        if bytes_eq(&txs[i].id, id) {
            assert(is_first_with_id(ms, id@, i as int));
            let ghost j = choose|j: int| is_first_with_id(ms, id@, j);
            assert(j == i as int) by {
                if j < i as int {
                    assert(ms[j].id != id@);
                }
                if j > i as int {
                    assert(ms[i as int].id != id@);
                }
            }
            return Some(i);
        }
        i = i + 1;
    }
    assert(!exists|j: int| is_first_with_id(ms, id@, j)) by {
        if exists|j: int| is_first_with_id(ms, id@, j) {
            let j = choose|j: int| is_first_with_id(ms, id@, j);
            assert(ms[j].id != id@);
        }
    }
    None
}

/// Whether every input of `t` finds the transaction it spends in `prev_txs`.
fn all_lookups_found(t: &Transaction, prev_txs: &Vec<Transaction>) -> (r: bool)
    ensures
        r == all_found(t@, prev_txs@.map_values(|p: Transaction| p@)),
{
    let ghost prevs = prev_txs@.map_values(|p: Transaction| p@);
    let mut i: usize = 0;
    while i < t.vin.len()
        invariant
            i <= t.vin@.len(),
            prevs == prev_txs@.map_values(|p: Transaction| p@),
            forall|j: int| 0 <= j < i ==> find_tx(prevs, (#[trigger] t@.vin[j]).txid) is Some,
        decreases t.vin@.len() - i,
    {
        assert(t@.vin[i as int] == t.vin@[i as int]@);
        if find_in(prev_txs, &t.vin[i].txid).is_none() {
            return false;
        }
        i = i + 1;
    }
    true
}

impl TXOutput {
    pub fn duplicate(&self) -> (r: TXOutput)
        ensures
            r@ == self@,
    {
        TXOutput { value: self.value, pub_key_hash: copy_bytes(&self.pub_key_hash) }
    }

    /// An output of `value` locked to the key hash of `address`.
    pub fn new(value: i64, address: &str) -> (r: Result<TXOutput, LedgerError>)
        ensures
            match address_key_hash(address@) {
                Some(h) => r is Ok && r.unwrap()@ == (OutputModel { value, pub_key_hash: h }),
                None => r == Err::<TXOutput, LedgerError>(LedgerError::InvalidAddress),
            },
    {
        let mut txo = TXOutput { value, pub_key_hash: Vec::new() };
        match txo.lock(address) {
            Ok(()) => Ok(txo),
            Err(e) => Err(e),
        }
    }

    /// Locks this output to the key hash of `address`.
    pub fn lock(&mut self, address: &str) -> (r: Result<(), LedgerError>)
        ensures
            match address_key_hash(address@) {
                Some(h) => r is Ok && final(self)@ == (OutputModel { pub_key_hash: h, ..old(self)@ }),
                None => r == Err::<(), LedgerError>(LedgerError::InvalidAddress) && final(self)@ == old(self)@,
            },
    {
        match address_to_pub_key_hash(address) {
            Ok(h) => {
                self.pub_key_hash = h;
                Ok(())
            },
            Err(e) => Err(e),
        }
    }

    /// Whether this output is locked to the given key hash.
    pub fn is_locked_with_key(&self, pub_key_hash: &Vec<u8>) -> (r: bool)
        ensures
            r == (self.pub_key_hash@ == pub_key_hash@),
    {
        bytes_eq(&self.pub_key_hash, pub_key_hash)
    }
}

/// Byte-wise equality of two byte strings.
pub fn bytes_eq(a: &Vec<u8>, b: &Vec<u8>) -> (r: bool)
    ensures
        r == (a@ == b@),
{
    if a.len() != b.len() {
        return false;
    }
    let mut i: usize = 0;
    while i < a.len()
        invariant
            a@.len() == b@.len(),
            i <= a@.len(),
            forall|j: int| 0 <= j < i ==> a@[j] == b@[j],
        decreases a@.len() - i,
    {
        if a[i] != b[i] {
            return false;
        }
        i = i + 1;
    }
    assert(a@ =~= b@);
    true
}

pub fn copy_inputs(v: &Vec<TXInput>) -> (r: Vec<TXInput>)
    ensures
        r@.map_values(|i: TXInput| i@) == v@.map_values(|i: TXInput| i@),
{
    let mut r: Vec<TXInput> = Vec::new();
    let mut i: usize = 0;
    while i < v.len()
        invariant
            i <= v@.len(),
            r@.len() == i,
            forall|j: int| 0 <= j < i ==> #[trigger] r@[j]@ == v@[j]@,
        decreases v@.len() - i,
    {
        r.push(v[i].duplicate());
        i = i + 1;
    }
    assert(r@.map_values(|x: TXInput| x@) =~= v@.map_values(|x: TXInput| x@));
    r
}

pub fn copy_outputs(v: &Vec<TXOutput>) -> (r: Vec<TXOutput>)
    ensures
        r@.map_values(|o: TXOutput| o@) == v@.map_values(|o: TXOutput| o@),
{
    let mut r: Vec<TXOutput> = Vec::new();
    let mut i: usize = 0;
    while i < v.len()
        invariant
            i <= v@.len(),
            r@.len() == i,
            forall|j: int| 0 <= j < i ==> #[trigger] r@[j]@ == v@[j]@,
        decreases v@.len() - i,
    {
        r.push(v[i].duplicate());
        i = i + 1;
    }
    assert(r@.map_values(|x: TXOutput| x@) =~= v@.map_values(|x: TXOutput| x@));
    r
}

impl Transaction {
    pub fn duplicate(&self) -> (r: Transaction)
        ensures
            r@ == self@,
    {
        let bundle = match &self.bundle {
            Some(b) => Some(copy_bytes(b)),
            None => None,
        };
        Transaction {
            id: copy_bytes(&self.id),
            vin: copy_inputs(&self.vin),
            vout: copy_outputs(&self.vout),
            bundle,
        }
    }

    /// The encoding of this transaction.
    pub fn serialize(&self) -> (r: Vec<u8>)
        ensures
            r@ == enc_tx(self@),
    {
        let mut out: Vec<u8> = Vec::new();
        put_tx(&mut out, self);
        assert(out@ =~= enc_tx(self@));
        out
    }

    /// The digest of this transaction's encoding with its id cleared.
    pub fn hash(&self) -> (r: Vec<u8>)
        ensures
            r@ == tx_hash(self@),
            r@.len() == 32,
    {
        let copy = Transaction {
            id: Vec::new(),
            vin: copy_inputs(&self.vin),
            vout: copy_outputs(&self.vout),
            bundle: match &self.bundle {
                Some(b) => Some(copy_bytes(b)),
                None => None,
            },
        };
        assert(copy@ =~= without_id(self@));
        let data = copy.serialize();
        sha256(data.as_slice())
    }

    /// Computes and stores the id.
    pub fn set_id(&mut self)
        ensures
            final(self)@ == (TxModel { id: tx_hash(old(self)@), ..old(self)@ }),
    {
        let id = self.hash();
        self.id = id;
    }

    /// The copy that signatures are computed over.
    pub fn trimmed_copy(&self) -> (r: Transaction)
        ensures
            r@ == trimmed(self@),
    {
        let mut inputs: Vec<TXInput> = Vec::new();
        let mut i: usize = 0;
        while i < self.vin.len()
            invariant
                i <= self.vin@.len(),
                inputs@.len() == i,
                forall|j: int| 0 <= j < i ==> #[trigger] inputs@[j]@ == trimmed_input(self.vin@[j]@),
            decreases self.vin@.len() - i,
        {
            inputs.push(
                TXInput {
                    txid: copy_bytes(&self.vin[i].txid),
                    vout: self.vin[i].vout,
                    signature: Vec::new(),
                    pub_key: Vec::new(),
                },
            );
            proof {
                assert(inputs@[i as int]@.signature =~= Seq::<u8>::empty());
                assert(inputs@[i as int]@.pub_key =~= Seq::<u8>::empty());
            }
            i = i + 1;
        }
        let r = Transaction {
            id: copy_bytes(&self.id),
            vin: inputs,
            vout: copy_outputs(&self.vout),
            bundle: match &self.bundle {
                Some(b) => Some(copy_bytes(b)),
                None => None,
            },
        };
        assert(r@.vin =~= trimmed(self@).vin);
        r
    }

    /// The digest that input `i` is signed over when the output it spends is
    /// locked to `locked_to`; `trimmed_tx` is this transaction's trimmed copy.
    fn signing_digest(&self, trimmed_tx: &Transaction, i: usize, locked_to: &Vec<u8>) -> (r: Vec<u8>)
        requires
            trimmed_tx@ == trimmed(self@),
            i < self.vin@.len(),
        ensures
            r@ == sig_digest(self@, i as int, locked_to@),
            r@.len() == 32,
    {
        let mut c = trimmed_tx.duplicate();
        assert(c@.vin.len() == c.vin@.len());
        assert(self@.vin.len() == self.vin@.len());
        assert(trimmed(self@).vin.len() == self@.vin.len());
        let mut inp = c.vin[i].duplicate();
        inp.pub_key = copy_bytes(locked_to);
        let ghost before = c.vin@;
        c.vin.set(i, inp);
        proof {
            let tr = trimmed(self@);
            assert(c@.vin =~= tr.vin.update(i as int, InputModel { pub_key: locked_to@, ..tr.vin[i as int] }));
        }
        c.hash()
    }

    /// Checks every input against the transactions it spends: the input's
    /// key must hash to the spent output's key hash and its signature must
    /// hold over the input's digest. A coinbase transaction passes.
    pub fn verify(&self, prev_txs: &Vec<Transaction>) -> (r: Result<bool, LedgerError>)
        ensures
            r == verify_spec(self@, prev_txs@.map_values(|t: Transaction| t@)),
    {
        if self.is_coinbase() {
            return Ok(true);
        }
        let ghost prevs = prev_txs@.map_values(|t: Transaction| t@);
        if !all_lookups_found(self, prev_txs) {
            return Err(LedgerError::TransactionNotFound);
        }
        let tr = self.trimmed_copy();
        let mut i: usize = 0;
        while i < self.vin.len()
            invariant
                i <= self.vin@.len(),
                prevs == prev_txs@.map_values(|t: Transaction| t@),
                tr@ == trimmed(self@),
                !is_coinbase_spec(self@),
                all_found(self@, prevs),
                verify_from(self@, prevs, 0) == verify_from(self@, prevs, i as nat),
            decreases self.vin@.len() - i,
        {
            let inp = &self.vin[i];
            assert(self@.vin[i as int] == inp@);
            proof {
                lemma_verify_from_unfold(self@, prevs, i as nat);
            }
            let p = match find_in(prev_txs, &inp.txid) {
                None => {
                    assert(input_check(self@, prevs, i as int) == Err::<bool, LedgerError>(
                        LedgerError::TransactionNotFound,
                    ));
                    return Err(LedgerError::TransactionNotFound);
                },
                Some(p) => p,
            };
            let prev = &prev_txs[p];
            assert(prevs[p as int] == prev@);
            if inp.vout < 0 || inp.vout as usize >= prev.vout.len() {
                assert(input_check(self@, prevs, i as int) == Ok::<bool, LedgerError>(false));
                return Ok(false);
            }
            let out = &prev.vout[inp.vout as usize];
            assert(prev@.vout[inp.vout as int] == out@);
            if !inp.use_key(&out.pub_key_hash) {
                return Ok(false);
            }
            let digest = self.signing_digest(&tr, i, &out.pub_key_hash);
            match ecdsa_verify(digest.as_slice(), inp.signature.as_slice(), inp.pub_key.as_slice()) {
                None => return Err(LedgerError::DecodeError),
                Some(false) => return Ok(false),
                Some(true) => {},
            }
            i = i + 1;
        }
        Ok(true)
    }

    /// Signs every input with `private_key` (32 raw bytes). Each signature
    /// covers the trimmed copy in which only the signed input carries the
    /// key hash of the output it spends. A coinbase transaction is left as
    /// it is; on an error nothing changes.
    pub fn sign(&mut self, private_key: &Vec<u8>, prev_txs: &Vec<Transaction>) -> (r: Result<(), LedgerError>)
        ensures
            ({
                let prevs = prev_txs@.map_values(|t: Transaction| t@);
                if is_coinbase_spec(old(self)@) {
                    r is Ok && final(self)@ == old(self)@
                } else {
                    match sign_error(old(self)@, prevs, private_key@) {
                        Some(e) => r == Err::<(), LedgerError>(e) && final(self)@ == old(self)@,
                        None => r is Ok && final(self)@ == signed(old(self)@, prevs, private_key@),
                    }
                }
            }),
    {
        if self.is_coinbase() {
            return Ok(());
        }
        let ghost prevs = prev_txs@.map_values(|t: Transaction| t@);
        let ghost sk = private_key@;
        if !all_lookups_found(self, prev_txs) {
            return Err(LedgerError::TransactionNotFound);
        }
        let tr = self.trimmed_copy();
        let mut new_vin: Vec<TXInput> = Vec::new();
        let mut i: usize = 0;
        while i < self.vin.len()
            invariant
                i <= self.vin@.len(),
                self@ == old(self)@,
                sk == private_key@,
                !is_coinbase_spec(self@),
                all_found(self@, prevs),
                prevs == prev_txs@.map_values(|t: Transaction| t@),
                tr@ == trimmed(self@),
                new_vin@.len() == i,
                forall|j: int| 0 <= j < i ==> (#[trigger] signature_for(self@, prevs, sk, j)) is Ok,
                forall|j: int|
                    0 <= j < i ==> (#[trigger] new_vin@[j])@ == signed_input(self@, prevs, sk, j),
                first_sign_error(self@, prevs, sk, 0) == first_sign_error(self@, prevs, sk, i as nat),
            decreases self.vin@.len() - i,
        {
            let inp = &self.vin[i];
            assert(self@.vin[i as int] == inp@);
            proof {
                lemma_first_sign_error_unfold(self@, prevs, sk, i as nat);
            }
            let p = match find_in(prev_txs, &inp.txid) {
                None => {
                    assert(signature_for(self@, prevs, sk, i as int) == Err::<Seq<u8>, LedgerError>(
                        LedgerError::TransactionNotFound,
                    ));

                    return Err(LedgerError::TransactionNotFound);
                },
                Some(p) => p,
            };
            let prev = &prev_txs[p];
            assert(prevs[p as int] == prev@);
            if inp.vout < 0 || inp.vout as usize >= prev.vout.len() {
                assert(signature_for(self@, prevs, sk, i as int) == Err::<Seq<u8>, LedgerError>(
                    LedgerError::InvalidTransaction,
                ));
                return Err(LedgerError::InvalidTransaction);
            }
            let out = &prev.vout[inp.vout as usize];
            assert(prev@.vout[inp.vout as int] == out@);
            let digest = self.signing_digest(&tr, i, &out.pub_key_hash);
            let sig = match ecdsa_sign(digest.as_slice(), private_key.as_slice()) {
                None => return Err(LedgerError::DecodeError),
                Some(sig) => sig,
            };
            assert(signature_for(self@, prevs, sk, i as int) == Ok::<Seq<u8>, LedgerError>(sig@));
            let mut with_sig = inp.duplicate();
            with_sig.signature = sig;
            new_vin.push(with_sig);
            assert(new_vin@[i as int]@ == signed_input(self@, prevs, sk, i as int));
            i = i + 1;
        }
        let ghost old_model = self@;
        self.vin = new_vin;
        assert(self@.vin =~= signed(old_model, prevs, sk).vin);
        Ok(())
    }

    /// Whether this is a coinbase transaction, which mints value and needs
    /// no authorisation.
    pub fn is_coinbase(&self) -> (r: bool)
        ensures
            r == is_coinbase_spec(self@),
    {
        self.vin.len() == 1 && self.vin[0].txid.len() == 0 && self.vin[0].vout == -1
    }
}


/// A coinbase transaction paying `SUBSIDY` to `to`, carrying `data` in its
/// input, with its id set.
pub fn new_coinbase_tx(to: &str, data: &str) -> (r: Result<Transaction, LedgerError>)
    ensures
        match address_key_hash(to@) {
            Some(h) => r is Ok && r.unwrap()@ == (TxModel {
                id: tx_hash(coinbase_model(h, encode_utf8(data@))),
                ..coinbase_model(h, encode_utf8(data@))
            }),
            None => r == Err::<Transaction, LedgerError>(LedgerError::InvalidAddress),
        },
{
    let txout = match TXOutput::new(SUBSIDY, to) {
        Ok(o) => o,
        Err(e) => return Err(e),
    };
    let txin = TXInput {
        txid: Vec::new(),
        vout: -1,
        signature: Vec::new(),
        pub_key: slice_to_vec(data.as_bytes()),
    };
    let mut tx = Transaction { id: Vec::new(), vin: vec![txin], vout: vec![txout], bundle: None };
    let ghost h = address_key_hash(to@)->Some_0;
    let ghost m = coinbase_model(h, encode_utf8(data@));
    assert(tx.vin@[0]@ == m.vin[0]);
    assert(tx.vout@[0]@ == m.vout[0]);
    assert(tx@.vin =~= m.vin);
    assert(tx@.vout =~= m.vout);
    assert(tx@.id =~= m.id);
    assert(tx@ == m);
    tx.set_id();
    Ok(tx)
}


/// The inputs that spend the picked outputs with the key `pub_key`, their
/// signatures left empty.
pub open spec fn inputs_for(picked: Seq<UtxoModel>, pub_key: Seq<u8>) -> Seq<InputModel> {
    picked.map_values(
        |u: UtxoModel|
            InputModel { txid: u.txid, vout: u.index as i32, signature: Seq::empty(), pub_key },
    )
}

/// The outputs of a payment: `amount` to `to`, and the change, if any, back
/// to `from`.
pub open spec fn payment_outputs(amount: int, gathered: int, to: Seq<u8>, from: Seq<u8>) -> Seq<OutputModel> {
    if gathered > amount {
        seq![
            OutputModel { value: amount as i64, pub_key_hash: to },
            OutputModel { value: (gathered - amount) as i64, pub_key_hash: from },
        ]
    } else {
        seq![OutputModel { value: amount as i64, pub_key_hash: to }]
    }
}

/// Builds a transaction that pays `amount` from the wallet's key to the
/// address `to`, spending the outputs `find_spendable_outputs` picks and
/// returning the change to the address `from`; sets its id and signs it.
pub fn new_utxo_transaction(from: &str, to: &str, amount: i64, wallet: &Wallet, bc: &Blockchain) -> (r:
    Result<Transaction, LedgerError>)
    requires
        bc.wf(),
    ensures
        ({
            let pk = hex_decoded(wallet.public_key@);
            let s = scan_txs(bc@);
            let c = utxos(s, pub_key_hash_of(pk));
            let picked = c.take(spend_count(c, amount as int) as int);
            let gathered = sum_values(picked);
            if amount < 0 {
                r == Err::<Transaction, LedgerError>(LedgerError::InvalidTransaction)
            } else if !hex_decodable(wallet.public_key@) {
                r == Err::<Transaction, LedgerError>(LedgerError::DecodeError)
            } else if gathered < amount {
                r == Err::<Transaction, LedgerError>(LedgerError::InsufficientFunds)
            } else if exists|j: int| 0 <= j < picked.len() && (#[trigger] picked[j]).index > i32::MAX {
                r == Err::<Transaction, LedgerError>(LedgerError::InvalidTransaction)
            } else if address_key_hash(to@) is None || (gathered > amount && address_key_hash(
                from@,
            ) is None) {
                r == Err::<Transaction, LedgerError>(LedgerError::InvalidAddress)
            } else {
                let unsigned = TxModel {
                    id: Seq::empty(),
                    vin: inputs_for(picked, pk),
                    vout: payment_outputs(
                        amount as int,
                        gathered,
                        address_key_hash(to@)->Some_0,
                        address_key_hash(from@)->Some_0,
                    ),
                    bundle: None,
                };
                let with_id = TxModel { id: tx_hash(unsigned), ..unsigned };
                let sk = hex_decoded(wallet.private_key@);
                if !hex_decodable(wallet.private_key@) {
                    r == Err::<Transaction, LedgerError>(LedgerError::DecodeError)
                } else if is_coinbase_spec(with_id) {
                    r is Ok && r.unwrap()@ == with_id
                } else {
                    match sign_error(with_id, s, sk) {
                        Some(e) => r == Err::<Transaction, LedgerError>(e),
                        None => r is Ok && r.unwrap()@ == signed(with_id, s, sk),
                    }
                }
            }
        }),
{
    if amount < 0 {
        return Err(LedgerError::InvalidTransaction);
    }
    let pk = match hex_decode(wallet.public_key.as_str()) {
        Some(k) => k,
        None => return Err(LedgerError::DecodeError),
    };
    let pkh = hash_pub_key(pk.as_slice());
    let (acc, picked) = bc.find_spendable_outputs(&pkh, amount);
    if acc < amount as i128 {
        return Err(LedgerError::InsufficientFunds);
    }
    let ghost ps = utxo_views(picked@);
    let ghost c = utxos(scan_txs(bc@), pub_key_hash_of(hex_decoded(wallet.public_key@)));
    let mut inputs: Vec<TXInput> = Vec::new();
    let mut i: usize = 0;
    while i < picked.len()
        invariant
            i <= picked@.len(),
            ps == utxo_views(picked@),
            pk@ == hex_decoded(wallet.public_key@),
            c == utxos(scan_txs(bc@), pub_key_hash_of(pk@)),
            ps == c.take(spend_count(c, amount as int) as int),
            amount >= 0,
            hex_decodable(wallet.public_key@),
            acc == sum_values(ps),
            acc >= amount,
            inputs@.len() == i,
            forall|j: int| 0 <= j < i ==> ps[j].index <= i32::MAX,
            forall|j: int| 0 <= j < i ==> (#[trigger] inputs@[j])@ == inputs_for(ps, pk@)[j],
        decreases picked@.len() - i,
    {
        if picked[i].index > 0x7fff_ffff {
            assert(ps[i as int].index > i32::MAX);
            return Err(LedgerError::InvalidTransaction);
        }
        inputs.push(
            TXInput {
                txid: copy_bytes(&picked[i].txid),
                vout: picked[i].index as i32,
                signature: Vec::new(),
                pub_key: copy_bytes(&pk),
            },
        );
        i = i + 1;
    }
    let pay = match TXOutput::new(amount, to) {
        Ok(o) => o,
        Err(e) => return Err(e),
    };
    let mut outputs: Vec<TXOutput> = vec![pay];
    if acc > amount as i128 {
        assert(acc - amount <= 0x7fff_ffff_ffff_ffff);
        let change = match TXOutput::new((acc - amount as i128) as i64, from) {
            Ok(o) => o,
            Err(e) => return Err(e),
        };
        outputs.push(change);
    }
    let mut tx = Transaction { id: Vec::new(), vin: inputs, vout: outputs, bundle: None };
    proof {
        assert(tx@.vin =~= inputs_for(ps, pk@));
        assert(tx@.vout =~= payment_outputs(
            amount as int,
            acc as int,
            address_key_hash(to@)->Some_0,
            address_key_hash(from@)->Some_0,
        ));
    }
    tx.set_id();
    match bc.sign_transaction(&mut tx, wallet.private_key.as_str()) {
        Ok(()) => Ok(tx),
        Err(e) => Err(e),
    }
}

} // verus!
