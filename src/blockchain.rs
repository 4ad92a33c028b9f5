//! The ledger: a linear chain of sealed blocks from genesis to tip, and the
//! queries that replay it from the tip down to find what is spent.
use vstd::prelude::*;
use crate::block::{deserialize_block, Block, BlockModel};
use crate::codec::decode_block;
use crate::transaction::{address_key_hash, coinbase_model, tx_hash};
use vstd::utf8::encode_utf8;
use crate::error::LedgerError;
use crate::crypto::pub_key_hash_of;
use crate::encoding::{hex_decodable, hex_decode, hex_decoded};
use crate::pow::sealed;
use crate::transaction::{
    bytes_eq, copy_bytes, find_in, find_tx, sign_error, is_coinbase_spec,
    lemma_lookup_agree, lemma_sign_same_lookups, lemma_verify_same_lookups, new_coinbase_tx, signed,
    verify_from, verify_spec, InputModel, OutputModel, TXOutput, Transaction, TxModel,
};

verus! {

/// Every output of every transaction holds a non-negative value.
pub open spec fn values_nonneg(t: TxModel) -> bool {
    forall|o: int| 0 <= o < t.vout.len() ==> (#[trigger] t.vout[o]).value >= 0
}

/// A well-formed chain: a genesis block with no predecessor and one
/// coinbase transaction, each later block linked to the hash of the one
/// before, every block sealed, every output value non-negative.
pub open spec fn chain_wf(chain: Seq<BlockModel>) -> bool {
    &&& chain.len() >= 1
    &&& chain[0].prev_block_hash.len() == 0
    &&& chain[0].transactions.len() == 1
    &&& is_coinbase_spec(chain[0].transactions[0])
    &&& forall|k: int| 0 < k < chain.len() ==> (#[trigger] chain[k]).prev_block_hash == chain[k - 1].hash
    &&& forall|k: int| 0 <= k < chain.len() ==> sealed(#[trigger] chain[k])
    &&& forall|k: int, t: int|
        0 <= k < chain.len() && 0 <= t < chain[k].transactions.len() ==> values_nonneg(
            #[trigger] chain[k].transactions[t],
        )
}

/// The transactions of a chain in the order a walk from the tip meets them:
/// the tip's transactions first, each block's in their own order.
pub open spec fn scan_txs(chain: Seq<BlockModel>) -> Seq<TxModel>
    decreases chain.len(),
{
    if chain.len() == 0 {
        Seq::empty()
    } else {
        chain.last().transactions + scan_txs(chain.drop_last())
    }
}

/// Input `inp` carries a key that hashes to `pkh` and spends output `o` of
/// transaction `txid`.
pub open spec fn input_spends(inp: InputModel, pkh: Seq<u8>, txid: Seq<u8>, o: int) -> bool {
    pub_key_hash_of(inp.pub_key) == pkh && inp.txid == txid && inp.vout as int == o
}

/// A non-coinbase transaction with an input, under key hash `pkh`, that
/// spends output `o` of transaction `txid`.
pub open spec fn spends(tx: TxModel, pkh: Seq<u8>, txid: Seq<u8>, o: int) -> bool {
    !is_coinbase_spec(tx) && exists|i: int|
        0 <= i < tx.vin.len() && input_spends(#[trigger] tx.vin[i], pkh, txid, o)
}

/// One of the first `k` transactions of the scan spends output `o` of
/// `txid` under `pkh`. Those transactions stand later in the chain.
pub open spec fn spent_before(s: Seq<TxModel>, k: int, pkh: Seq<u8>, txid: Seq<u8>, o: int) -> bool {
    exists|j: int| 0 <= j < k && spends(#[trigger] s[j], pkh, txid, o)
}

/// Output `o` of the `k`-th scanned transaction is locked to `pkh` and no
/// later transaction spends it.
pub open spec fn is_unspent(s: Seq<TxModel>, k: int, o: int, pkh: Seq<u8>) -> bool {
    s[k].vout[o].pub_key_hash == pkh && !spent_before(s, k, pkh, s[k].id, o)
}

/// An unspent output: the id of its transaction, its index there, and the
/// output itself.
pub struct UtxoModel {
    pub txid: Seq<u8>,
    pub index: int,
    pub output: OutputModel,
}

pub open spec fn utxo_at(s: Seq<TxModel>, k: int, o: int) -> UtxoModel {
    UtxoModel { txid: s[k].id, index: o, output: s[k].vout[o] }
}

/// The unspent outputs for `pkh` among the first `n` outputs of the `k`-th
/// scanned transaction, by index.
pub open spec fn tx_utxos(s: Seq<TxModel>, k: int, pkh: Seq<u8>, n: nat) -> Seq<UtxoModel>
    decreases n,
{
    if n == 0 {
        Seq::empty()
    } else {
        tx_utxos(s, k, pkh, (n - 1) as nat) + if is_unspent(s, k, n - 1, pkh) {
            seq![utxo_at(s, k, n - 1)]
        } else {
            Seq::empty()
        }
    }
}

/// The unspent outputs for `pkh` in the first `k` scanned transactions, in
/// scan order.
pub open spec fn utxos_upto(s: Seq<TxModel>, pkh: Seq<u8>, k: nat) -> Seq<UtxoModel>
    decreases k,
{
    if k == 0 {
        Seq::empty()
    } else {
        utxos_upto(s, pkh, (k - 1) as nat) + tx_utxos(s, k - 1, pkh, s[k - 1].vout.len())
    }
}

pub open spec fn utxos(s: Seq<TxModel>, pkh: Seq<u8>) -> Seq<UtxoModel> {
    utxos_upto(s, pkh, s.len())
}

/// The transactions among the first `k` scanned that hold an unspent
/// output for `pkh`, each once, in scan order.
pub open spec fn unspent_txs_upto(s: Seq<TxModel>, pkh: Seq<u8>, k: nat) -> Seq<TxModel>
    decreases k,
{
    if k == 0 {
        Seq::empty()
    } else {
        unspent_txs_upto(s, pkh, (k - 1) as nat) + if tx_utxos(s, k - 1, pkh, s[k - 1].vout.len()).len()
            > 0 {
            seq![s[k - 1]]
        } else {
            Seq::empty()
        }
    }
}

pub open spec fn unspent_txs(s: Seq<TxModel>, pkh: Seq<u8>) -> Seq<TxModel> {
    unspent_txs_upto(s, pkh, s.len())
}

/// A reference to one output of one transaction.
#[derive(Debug)]
pub struct OutPoint {
    pub txid: Vec<u8>,
    pub vout: i32,
}

impl View for OutPoint {
    type V = (Seq<u8>, i32);

    open spec fn view(&self) -> (Seq<u8>, i32) {
        (self.txid@, self.vout)
    }
}

/// An unspent output together with where it stands.
#[derive(Debug)]
pub struct UnspentOutput {
    pub txid: Vec<u8>,
    pub index: usize,
    pub output: TXOutput,
}

impl UnspentOutput {
    pub fn duplicate(&self) -> (r: UnspentOutput)
        ensures
            r@ == self@,
    {
        UnspentOutput { txid: copy_bytes(&self.txid), index: self.index, output: self.output.duplicate() }
    }
}

impl View for UnspentOutput {
    type V = UtxoModel;

    open spec fn view(&self) -> UtxoModel {
        UtxoModel { txid: self.txid@, index: self.index as int, output: self.output@ }
    }
}

pub open spec fn marks_of(v: Seq<OutPoint>) -> Seq<(Seq<u8>, i32)> {
    v.map_values(|m: OutPoint| m@)
}

pub open spec fn marked(marks: Seq<(Seq<u8>, i32)>, txid: Seq<u8>, o: int) -> bool {
    exists|m: int| 0 <= m < marks.len() && (#[trigger] marks[m]).0 == txid && marks[m].1 as int == o
}

proof fn lemma_sum_step(c: Seq<UtxoModel>, i: int)
    requires
        0 <= i < c.len(),
    ensures
        sum_values(c.take(i + 1)) == sum_values(c.take(i)) + c[i].output.value,
{
    assert(c.take(i + 1).drop_last() =~= c.take(i));
}

fn is_marked(marks: &Vec<OutPoint>, txid: &Vec<u8>, o: usize) -> (r: bool)
    ensures
        r == marked(marks_of(marks@), txid@, o as int),
{
    let ghost ms = marks_of(marks@);
    let mut m: usize = 0;
    while m < marks.len()
        invariant
            m <= marks@.len(),
            ms == marks_of(marks@),
            forall|j: int| 0 <= j < m ==> !((#[trigger] ms[j]).0 == txid@ && ms[j].1 as int == o),
        decreases marks@.len() - m,
    {
        if marks[m].vout >= 0 && marks[m].vout as usize == o && bytes_eq(&marks[m].txid, txid) {
            assert(ms[m as int].0 == txid@ && ms[m as int].1 as int == o);
            return true;
        }
        m = m + 1;
    }
    false
}

/// The sum of the values of the outputs.
pub open spec fn sum_values(c: Seq<UtxoModel>) -> int
    decreases c.len(),
{
    if c.len() == 0 {
        0
    } else {
        sum_values(c.drop_last()) + c.last().output.value
    }
}

/// How many outputs, taken in order, are spent to cover `need`: outputs are
/// taken while the amount gathered is below `need`.
pub open spec fn spend_count(c: Seq<UtxoModel>, need: int) -> nat
    decreases c.len(),
{
    if c.len() == 0 || need <= 0 {
        0
    } else {
        1 + spend_count(c.drop_first(), need - c[0].output.value)
    }
}

pub open spec fn utxo_views(v: Seq<UnspentOutput>) -> Seq<UtxoModel> {
    v.map_values(|u: UnspentOutput| u@)
}

/// The data that the genesis coinbase transaction carries.
pub const COINBASE_DATA: &'static str = "coinbase";

/// A transaction may enter a block: its values are non-negative and it
/// verifies against the chain.
pub open spec fn admissible(t: TxModel, chain: Seq<BlockModel>) -> bool {
    values_nonneg(t) && verify_spec(t, scan_txs(chain)) == Ok::<bool, LedgerError>(true)
}

fn outputs_nonneg(tx: &Transaction) -> (r: bool)
    ensures
        r == values_nonneg(tx@),
{
    let mut o: usize = 0;
    while o < tx.vout.len()
        invariant
            o <= tx.vout@.len(),
            forall|j: int| 0 <= j < o ==> (#[trigger] tx@.vout[j]).value >= 0,
        decreases tx.vout@.len() - o,
    {
        assert(tx@.vout[o as int] == tx.vout@[o as int]@);
        if tx.vout[o].value < 0 {
            return false;
        }
        o = o + 1;
    }
    true
}

/// One entry of the persistent table: a block hash and the stored form of
/// that block.
#[derive(Debug)]
pub struct StoredBlock {
    pub key: Vec<u8>,
    pub value: Vec<u8>,
}

/// The entries of the table as pairs of key and value.
pub open spec fn entries_of(stored: Seq<StoredBlock>) -> Seq<(Seq<u8>, Seq<u8>)> {
    stored.map_values(|e: StoredBlock| (e.key@, e.value@))
}

/// The value of the first entry under `key`.
pub open spec fn find_entry(entries: Seq<(Seq<u8>, Seq<u8>)>, key: Seq<u8>) -> Option<Seq<u8>>
    decreases entries.len(),
{
    if entries.len() == 0 {
        None
    } else if entries[0].0 == key {
        Some(entries[0].1)
    } else {
        find_entry(entries.drop_first(), key)
    }
}

/// The blocks met on a walk of at most `fuel` steps from the block stored
/// under `hash` down to a block with no predecessor, genesis first.
pub open spec fn walk_store(entries: Seq<(Seq<u8>, Seq<u8>)>, hash: Seq<u8>, fuel: nat) -> Result<
    Seq<BlockModel>,
    LedgerError,
>
    decreases fuel,
{
    if fuel == 0 {
        Err(LedgerError::StoreError)
    } else {
        match find_entry(entries, hash) {
            None => Err(LedgerError::StoreError),
            Some(v) => match decode_block(v) {
                None => Err(LedgerError::DecodeError),
                Some(b) => if b.hash != hash {
                    Err(LedgerError::StoreError)
                } else if b.prev_block_hash.len() == 0 {
                    Ok(seq![b])
                } else {
                    match walk_store(entries, b.prev_block_hash, (fuel - 1) as nat) {
                        Ok(c) => Ok(c.push(b)),
                        Err(e) => Err(e),
                    }
                },
            },
        }
    }
}

/// A partial walk followed by the blocks already met.
pub open spec fn extend_walk(r: Result<Seq<BlockModel>, LedgerError>, acc: Seq<BlockModel>) -> Result<
    Seq<BlockModel>,
    LedgerError,
> {
    match r {
        Ok(c) => Ok(c + acc),
        Err(e) => Err(e),
    }
}

/// Whether the blocks form a well-formed chain, genesis first.
fn check_chain(blocks: &Vec<Block>) -> (r: bool)
    ensures
        r == chain_wf(blocks@.map_values(|b: Block| b@)),
{
    let ghost c = blocks@.map_values(|b: Block| b@);
    if blocks.len() == 0 {
        return false;
    }
    assert(c[0] == blocks@[0]@);
    if blocks[0].prev_block_hash.len() != 0 || blocks[0].transactions.len() != 1 {
        return false;
    }
    assert(c[0].transactions[0] == blocks@[0].transactions@[0]@);
    if !blocks[0].transactions[0].is_coinbase() {
        return false;
    }
    let mut k: usize = 0;
    while k < blocks.len()
        invariant
            k <= blocks@.len(),
            c == blocks@.map_values(|b: Block| b@),
            c.len() >= 1,
            c[0].prev_block_hash.len() == 0,
            c[0].transactions.len() == 1,
            is_coinbase_spec(c[0].transactions[0]),
            forall|j: int| 0 < j < k ==> (#[trigger] c[j]).prev_block_hash == c[j - 1].hash,
            forall|j: int| 0 <= j < k ==> sealed(#[trigger] c[j]),
            forall|j: int, t: int|
                0 <= j < k && 0 <= t < c[j].transactions.len() ==> values_nonneg(
                    #[trigger] c[j].transactions[t],
                ),
        decreases blocks@.len() - k,
    {
        let b = &blocks[k];
        assert(c[k as int] == b@);
        if !b.is_sealed() {
            return false;
        }
        if k > 0 && !bytes_eq(&b.prev_block_hash, &blocks[k - 1].hash) {
            assert(c[k - 1] == blocks@[k - 1]@);
            return false;
        }
        if k > 0 {
            assert(c[k - 1] == blocks@[k - 1]@);
        }
        let mut t: usize = 0;
        while t < b.transactions.len()
            invariant
                t <= b.transactions@.len(),
                k < c.len(),
                c == blocks@.map_values(|b: Block| b@),
                c[k as int] == b@,
                forall|u: int| 0 <= u < t ==> values_nonneg(#[trigger] c[k as int].transactions[u]),
            decreases b.transactions@.len() - t,
        {
            assert(c[k as int].transactions[t as int] == b.transactions@[t as int]@);
            if !outputs_nonneg(&b.transactions[t]) {
                return false;
            }
            t = t + 1;
        }
        k = k + 1;
    }
    true
}

/// The chain store: blocks kept in order from genesis to tip, and the hash
/// of the tip.
#[derive(Debug)]
pub struct Blockchain {
    pub tip: Vec<u8>,
    /// Genesis first, tip last.
    pub blocks: Vec<Block>,
}

impl View for Blockchain {
    type V = Seq<BlockModel>;

    open spec fn view(&self) -> Seq<BlockModel> {
        self.blocks@.map_values(|b: Block| b@)
    }
}

impl Blockchain {
    /// The chain is well formed and the tip names its last block.
    pub open spec fn wf(&self) -> bool {
        chain_wf(self@) && self.tip@ == self@.last().hash
    }

    /// A new chain whose genesis block pays the subsidy to `address`.
    pub fn new(address: &str) -> (r: Result<Blockchain, LedgerError>)
        ensures
            match address_key_hash(address@) {
                None => r == Err::<Blockchain, LedgerError>(LedgerError::InvalidAddress),
                Some(h) => match r {
                    Ok(bc) => {
                        let cb = coinbase_model(h, encode_utf8(COINBASE_DATA@));
                        &&& bc.wf()
                        &&& bc@.len() == 1
                        &&& bc@[0].transactions == seq![TxModel { id: tx_hash(cb), ..cb }]
                    },
                    Err(e) => e == LedgerError::MiningExhausted,
                },
            },
    {
        let coinbase = match new_coinbase_tx(address, COINBASE_DATA) {
            Ok(t) => t,
            Err(e) => return Err(e),
        };
        let genesis = match Block::genesis(coinbase) {
            Ok(b) => b,
            Err(e) => return Err(e),
        };
        let tip = copy_bytes(&genesis.hash);
        let bc = Blockchain { tip, blocks: vec![genesis] };
        proof {
            let g = bc@[0];
            assert(bc@ =~= seq![g]);
            assert forall|t: int| 0 <= t < g.transactions.len() implies values_nonneg(
                #[trigger] g.transactions[t],
            ) by {
                assert(g.transactions[t].vout[0].value == 10);
            }
        }
        Ok(bc)
    }

    /// Rebuilds the chain from the persistent table: walks from `tip` along
    /// the previous-block hashes down to the genesis block, reading each
    /// block from the first entry under its hash, for at most as many steps
    /// as there are entries. The result is exactly that walk, when it forms
    /// a well-formed chain; a missing entry, a block stored under another
    /// hash, a walk that does not end, or blocks that do not form a
    /// well-formed chain give `StoreError`, an entry that does not decode
    /// gives `DecodeError`.
    pub fn open(tip: &Vec<u8>, stored: &Vec<StoredBlock>) -> (r: Result<Blockchain, LedgerError>)
        ensures
            match walk_store(entries_of(stored@), tip@, stored@.len()) {
                Err(e) => r == Err::<Blockchain, LedgerError>(e),
                Ok(c) => if chain_wf(c) {
                    r is Ok && r.unwrap()@ == c && r.unwrap().tip@ == tip@ && r.unwrap().wf()
                } else {
                    r == Err::<Blockchain, LedgerError>(LedgerError::StoreError)
                },
            },
    {
        let ghost es = entries_of(stored@);
        let ghost n = stored@.len();
        let mut rev: Vec<Block> = Vec::new();
        let ghost mut acc: Seq<BlockModel> = Seq::empty();
        let mut cur = copy_bytes(tip);
        let mut done = false;
        let mut steps: usize = 0;
        proof {
            match walk_store(es, tip@, n) {
                Ok(c) => {
                    assert(c + acc =~= c);
                },
                Err(_) => {},
            }
        }
        while !done && steps < stored.len()
            invariant
                steps <= stored@.len(),
                es == entries_of(stored@),
                n == stored@.len(),
                acc.len() == rev@.len(),
                forall|j: int| 0 <= j < acc.len() ==> (#[trigger] acc[j]) == rev@[rev@.len() - 1 - j]@,
                acc.len() > 0 ==> acc.last().hash == tip@,
                acc.len() == 0 ==> cur@ == tip@,
                !done ==> walk_store(es, tip@, n) == extend_walk(walk_store(es, cur@, (n - steps) as nat), acc),
                done ==> walk_store(es, tip@, n) == Ok::<Seq<BlockModel>, LedgerError>(acc),
            decreases stored@.len() - steps,
        {
            let ghost fuel = (n - steps) as nat;
            let mut idx: usize = 0;
            let mut found = false;
            proof {
                assert(es.skip(0) =~= es);
            }
            while idx < stored.len() && !found
                invariant
                    idx <= stored@.len(),
                    es == entries_of(stored@),
                    found ==> idx < stored@.len() && stored@[idx as int].key@ == cur@,
                    found ==> find_entry(es, cur@) == Some(stored@[idx as int].value@),
                    !found ==> find_entry(es, cur@) == find_entry(es.skip(idx as int), cur@),
                decreases stored@.len() - idx + if found { 0int } else { 1int },
            {
                let ghost rest = es.skip(idx as int);
                assert(rest[0] == (stored@[idx as int].key@, stored@[idx as int].value@));
                assert(rest.drop_first() =~= es.skip(idx + 1));
                if bytes_eq(&stored[idx].key, &cur) {
                    found = true;
                } else {
                    idx = idx + 1;
                }
            }
            if !found {
                assert(es.skip(idx as int).len() == 0);
                return Err(LedgerError::StoreError);
            }
            let block = match deserialize_block(stored[idx].value.as_slice()) {
                Ok(b) => b,
                Err(e) => return Err(e),
            };
            if !bytes_eq(&block.hash, &cur) {
                return Err(LedgerError::StoreError);
            }
            done = block.prev_block_hash.len() == 0;
            proof {
                let b = block@;
                let old_acc = acc;
                acc = seq![b] + acc;
                if done {
                    assert(walk_store(es, cur@, fuel) == Ok::<Seq<BlockModel>, LedgerError>(seq![b]));
                } else {
                    assert(seq![b] + old_acc =~= Seq::<BlockModel>::empty().push(b) + old_acc);
                    match walk_store(es, b.prev_block_hash, (fuel - 1) as nat) {
                        Ok(c) => {
                            assert(c.push(b) + old_acc =~= c + acc);
                        },
                        Err(_) => {},
                    }
                }
            }
            cur = copy_bytes(&block.prev_block_hash);
            let ghost before = rev@;
            rev.push(block);
            proof {
                assert forall|j: int| 0 <= j < acc.len() implies (#[trigger] acc[j]) == rev@[rev@.len() - 1 - j]@ by {
                    if j > 0 {
                        assert(acc[j] == acc.subrange(1, acc.len() as int)[j - 1]);
                    }
                }
            }
            steps = steps + 1;
        }
        if !done {
            assert(walk_store(es, cur@, 0) == Err::<Seq<BlockModel>, LedgerError>(LedgerError::StoreError));
            return Err(LedgerError::StoreError);
        }
        let mut blocks: Vec<Block> = Vec::new();
        let mut i: usize = rev.len();
        while i > 0
            invariant
                i <= rev@.len(),
                blocks@.len() == rev@.len() - i,
                forall|j: int| 0 <= j < blocks@.len() ==> (#[trigger] blocks@[j])@ == rev@[rev@.len() - 1 - j]@,
            decreases i,
        {
            blocks.push(rev[i - 1].duplicate());
            i = i - 1;
        }
        proof {
            assert(blocks@.map_values(|b: Block| b@) =~= acc);
        }
        if !check_chain(&blocks) {
            return Err(LedgerError::StoreError);
        }
        let bc = Blockchain { tip: copy_bytes(tip), blocks };
        proof {
            assert(bc@ =~= acc);
        }
        Ok(bc)
    }

    /// Verifies each transaction against the chain, mines a block holding
    /// them on top of the tip, and appends it. A batch with a transaction
    /// that does not verify, or that has a negative output, is refused
    /// whole and nothing changes.
    pub fn mine_block(&mut self, transactions: Vec<Transaction>) -> (r: Result<(), LedgerError>)
        requires
            old(self).wf(),
        ensures
            final(self).wf(),
            ({
                let txs = transactions@.map_values(|t: Transaction| t@);
                let n = old(self)@.len();
                if exists|j: int| 0 <= j < txs.len() && !admissible(#[trigger] txs[j], old(self)@) {
                    r == Err::<(), LedgerError>(LedgerError::InvalidTransaction) && final(self)@ == old(self)@
                } else {
                    match r {
                        Ok(()) => {
                            &&& final(self)@.len() == n + 1
                            &&& final(self)@.take(n as int) == old(self)@
                            &&& final(self)@[n as int].prev_block_hash == old(self).tip@
                            &&& final(self)@[n as int].transactions == txs
                        },
                        Err(e) => e == LedgerError::MiningExhausted && final(self)@ == old(self)@,
                    }
                }
            }),
    {
        let ghost txs = transactions@.map_values(|t: Transaction| t@);
        let mut i: usize = 0;
        while i < transactions.len()
            invariant
                i <= transactions@.len(),
                self.wf(),
                txs == transactions@.map_values(|t: Transaction| t@),
                forall|j: int| 0 <= j < i ==> admissible(#[trigger] txs[j], self@),
            decreases transactions@.len() - i,
        {
            let tx = &transactions[i];
            let ok = outputs_nonneg(tx) && match self.verify_transaction(tx) {
                Ok(true) => true,
                _ => false,
            };
            if !ok {
                assert(!admissible(txs[i as int], self@));
                return Err(LedgerError::InvalidTransaction);
            }
            i = i + 1;
        }
        let prev = copy_bytes(&self.tip);
        let block = match Block::new(transactions, prev) {
            Ok(b) => b,
            Err(e) => return Err(e),
        };
        let ghost old_chain = self@;
        let tip = copy_bytes(&block.hash);
        self.blocks.push(block);
        self.tip = tip;
        proof {
            let n = old_chain.len();
            assert(self@.take(n as int) =~= old_chain);
            assert(self@ =~= old_chain.push(self@[n as int]));
            assert forall|k: int, t: int|
                0 <= k < self@.len() && 0 <= t < self@[k].transactions.len() implies values_nonneg(
                #[trigger] self@[k].transactions[t],
            ) by {
                if k == n {
                    assert(admissible(txs[t], old_chain));
                } else {
                    assert(self@[k] == old_chain[k]);
                }
            }
            assert forall|k: int| 0 < k < self@.len() implies (#[trigger] self@[k]).prev_block_hash
                == self@[k - 1].hash by {
                if k < n {
                    assert(self@[k] == old_chain[k]);
                    assert(self@[k - 1] == old_chain[k - 1]);
                }
            }
            assert forall|k: int| 0 <= k < self@.len() implies sealed(#[trigger] self@[k]) by {
                if k < n {
                    assert(self@[k] == old_chain[k]);
                }
            }
        }
        Ok(())
    }

    /// A walk over the chain from the tip down to the genesis block.
    pub fn iterator(&self) -> (r: BlockchainIterator<'_>)
        requires
            self.wf(),
        ensures
            r.wf(),
            r.chain == self,
            r.remaining == self@.len(),
            r.current_hash@ == self.tip@,
    {
        BlockchainIterator { current_hash: copy_bytes(&self.tip), chain: self, remaining: self.blocks.len() }
    }

    /// All transactions of the chain, in the order of a walk from the tip.
    fn scan(&self) -> (r: Vec<Transaction>)
        requires
            self.wf(),
        ensures
            r@.map_values(|t: Transaction| t@) == scan_txs(self@),
    {
        let mut it = self.iterator();
        let mut out: Vec<Transaction> = Vec::new();
        let mut done = false;
        proof {
            assert(self@.take(self@.len() as int) =~= self@);
            assert(out@.map_values(|t: Transaction| t@) =~= Seq::<TxModel>::empty());
            assert(Seq::<TxModel>::empty() + scan_txs(self@) =~= scan_txs(self@));
        }
        while !done
            invariant
                self.wf(),
                it.wf(),
                it.chain == self,
                it.remaining <= self@.len(),
                done ==> it.remaining == 0,
                out@.map_values(|t: Transaction| t@) + scan_txs(self@.take(it.remaining as int))
                    == scan_txs(self@),
            decreases it.remaining * 2 + if done { 0int } else { 1int },
        {
            let ghost r0 = it.remaining;
            match it.next() {
                None => {
                    done = true;
                },
                Some(block) => {
                    let ghost before = out@.map_values(|t: Transaction| t@);
                    let mut i: usize = 0;
                    while i < block.transactions.len()
                        invariant
                            i <= block.transactions@.len(),
                            out@.map_values(|t: Transaction| t@) == before + block@.transactions.take(
                                i as int,
                            ),
                        decreases block.transactions@.len() - i,
                    {
                        let ghost prev = out@;
                        out.push(block.transactions[i].duplicate());
                        proof {
                            assert(out@.map_values(|t: Transaction| t@) =~= prev.map_values(
                                |t: Transaction| t@,
                            ).push(block.transactions@[i as int]@));
                            assert(block@.transactions.take(i + 1) =~= block@.transactions.take(
                                i as int,
                            ).push(block@.transactions[i as int]));
                        }
                        i = i + 1;
                    }
                    proof {
                        assert(block@.transactions.take(block@.transactions.len() as int)
                            =~= block@.transactions);
                        let c = self@.take(r0 as int);
                        assert(c.drop_last() =~= self@.take(r0 - 1));
                        assert(c.last() == self@[r0 - 1]);
                    }
                },
            }
        }
        proof {
            assert(self@.take(0).len() == 0);
        }
        out
    }

    /// Replays the chain from the tip and collects, for key hash `pkh`, the
    /// transactions that hold an unspent output and those outputs.
    fn walk_unspent(&self, pkh: &Vec<u8>) -> (r: (Vec<Transaction>, Vec<UnspentOutput>))
        requires
            self.wf(),
        ensures
            r.0@.map_values(|t: Transaction| t@) == unspent_txs(scan_txs(self@), pkh@),
            r.1@.map_values(|u: UnspentOutput| u@) == utxos(scan_txs(self@), pkh@),
    {
        let all = self.scan();
        let ghost s = scan_txs(self@);
        let mut marks: Vec<OutPoint> = Vec::new();
        let mut txs: Vec<Transaction> = Vec::new();
        let mut outs: Vec<UnspentOutput> = Vec::new();
        let mut k: usize = 0;
        while k < all.len()
            invariant
                k <= all@.len(),
                s == all@.map_values(|t: Transaction| t@),
                forall|txid: Seq<u8>, o: int|
                    #[trigger] marked(marks_of(marks@), txid, o) <==> spent_before(
                        s,
                        k as int,
                        pkh@,
                        txid,
                        o,
                    ),
                txs@.map_values(|t: Transaction| t@) == unspent_txs_upto(s, pkh@, k as nat),
                outs@.map_values(|u: UnspentOutput| u@) == utxos_upto(s, pkh@, k as nat),
            decreases all@.len() - k,
        {
            let tx = &all[k];
            assert(s[k as int] == tx@);
            let n0 = outs.len();
            let ghost outs0 = outs@.map_values(|u: UnspentOutput| u@);
            let mut o: usize = 0;
            while o < tx.vout.len()
                invariant
                    o <= tx.vout@.len(),
                    s[k as int] == tx@,
                    k < s.len(),
                    n0 == outs0.len(),
                    forall|txid: Seq<u8>, oo: int|
                        #[trigger] marked(marks_of(marks@), txid, oo) <==> spent_before(
                            s,
                            k as int,
                            pkh@,
                            txid,
                            oo,
                        ),
                    outs@.map_values(|u: UnspentOutput| u@) == outs0 + tx_utxos(s, k as int, pkh@, o as nat),
                decreases tx.vout@.len() - o,
            {
                assert(tx@.vout[o as int] == tx.vout@[o as int]@);
                if tx.vout[o].is_locked_with_key(pkh) && !is_marked(&marks, &tx.id, o) {
                    let ghost before = outs@;
                    outs.push(
                        UnspentOutput { txid: copy_bytes(&tx.id), index: o, output: tx.vout[o].duplicate() },
                    );
                    assert(outs@.map_values(|u: UnspentOutput| u@) =~= before.map_values(
                        |u: UnspentOutput| u@,
                    ).push(utxo_at(s, k as int, o as int)));
                } else {
                    assert(!is_unspent(s, k as int, o as int, pkh@));
                }
                o = o + 1;
                assert(outs@.map_values(|u: UnspentOutput| u@) =~= outs0 + tx_utxos(s, k as int, pkh@, o as nat));
            }
            assert(tx@.vout.len() == tx.vout@.len());
            if outs.len() > n0 {
                let ghost before = txs@;
                txs.push(tx.duplicate());
                assert(txs@.map_values(|t: Transaction| t@) =~= before.map_values(|t: Transaction| t@).push(
                    s[k as int],
                ));
            }
            assert(outs@.map_values(|u: UnspentOutput| u@) =~= utxos_upto(s, pkh@, (k + 1) as nat));
            assert(txs@.map_values(|t: Transaction| t@) =~= unspent_txs_upto(s, pkh@, (k + 1) as nat));
            let coinbase = tx.is_coinbase();
            let mut i: usize = 0;
            while i < tx.vin.len()
                invariant
                    i <= tx.vin@.len(),
                    s[k as int] == tx@,
                    k < s.len(),
                    coinbase == is_coinbase_spec(tx@),
                    forall|txid: Seq<u8>, oo: int|
                        #[trigger] marked(marks_of(marks@), txid, oo) <==> (spent_before(
                            s,
                            k as int,
                            pkh@,
                            txid,
                            oo,
                        ) || (!coinbase && exists|j: int|
                            0 <= j < i && input_spends(#[trigger] tx@.vin[j], pkh@, txid, oo))),
                decreases tx.vin@.len() - i,
            {
                assert(tx@.vin[i as int] == tx.vin@[i as int]@);
                if !coinbase && tx.vin[i].use_key(pkh) {
                    let ghost before = marks_of(marks@);
                    marks.push(OutPoint { txid: copy_bytes(&tx.vin[i].txid), vout: tx.vin[i].vout });
                    let ghost after = marks_of(marks@);
                    assert(after =~= before.push((tx.vin@[i as int].txid@, tx.vin@[i as int].vout)));
                    assert forall|txid: Seq<u8>, oo: int|
                        #[trigger] marked(after, txid, oo) <==> (marked(before, txid, oo) || (txid
                            == tx@.vin[i as int].txid && oo == tx@.vin[i as int].vout as int)) by {
                        if marked(after, txid, oo) {
                            let m = choose|m: int|
                                0 <= m < after.len() && (#[trigger] after[m]).0 == txid && after[m].1 as int
                                    == oo;
                            if m < before.len() {
                                assert(before[m] == after[m]);
                            }
                        }
                        if marked(before, txid, oo) {
                            let m = choose|m: int|
                                0 <= m < before.len() && (#[trigger] before[m]).0 == txid && before[m].1 as int
                                    == oo;
                            assert(after[m] == before[m]);
                        }
                        if txid == tx@.vin[i as int].txid && oo == tx@.vin[i as int].vout as int {
                            assert(after[before.len() as int] == (txid, tx@.vin[i as int].vout));
                        }
                    }
                }
                i = i + 1;
            }
            proof {
                assert forall|txid: Seq<u8>, oo: int|
                    spent_before(s, k + 1, pkh@, txid, oo) <==> (spent_before(s, k as int, pkh@, txid, oo)
                        || spends(s[k as int], pkh@, txid, oo)) by {
                    if spent_before(s, k + 1, pkh@, txid, oo) {
                        let j = choose|j: int| 0 <= j < k + 1 && spends(#[trigger] s[j], pkh@, txid, oo);
                        if j < k {
                        }
                    }
                }
            }
            k = k + 1;
        }
        (txs, outs)
    }

    /// The transactions that hold an output locked to `pub_key_hash` that no
    /// later transaction spends, each once, in the order of a walk from the
    /// tip.
    pub fn find_unspent_transactions(&self, pub_key_hash: &Vec<u8>) -> (r: Vec<Transaction>)
        requires
            self.wf(),
        ensures
            r@.map_values(|t: Transaction| t@) == unspent_txs(scan_txs(self@), pub_key_hash@),
    {
        let (txs, _outs) = self.walk_unspent(pub_key_hash);
        txs
    }

    /// The unspent outputs locked to `pub_key_hash`, with where they stand,
    /// in the order of a walk from the tip and by index within a
    /// transaction.
    pub fn find_unspent_outputs(&self, pub_key_hash: &Vec<u8>) -> (r: Vec<UnspentOutput>)
        requires
            self.wf(),
        ensures
            utxo_views(r@) == utxos(scan_txs(self@), pub_key_hash@),
    {
        let (_txs, outs) = self.walk_unspent(pub_key_hash);
        outs
    }

    /// The unspent outputs locked to `pub_key_hash`.
    pub fn find_utxo(&self, pub_key_hash: &Vec<u8>) -> (r: Vec<TXOutput>)
        requires
            self.wf(),
        ensures
            r@.map_values(|o: TXOutput| o@) == utxos(scan_txs(self@), pub_key_hash@).map_values(
                |u: UtxoModel| u.output,
            ),
    {
        let outs = self.find_unspent_outputs(pub_key_hash);
        let ghost us = utxo_views(outs@);
        let mut r: Vec<TXOutput> = Vec::new();
        let mut i: usize = 0;
        while i < outs.len()
            invariant
                i <= outs@.len(),
                us == utxo_views(outs@),
                r@.len() == i,
                forall|j: int| 0 <= j < i ==> (#[trigger] r@[j])@ == us[j].output,
            decreases outs@.len() - i,
        {
            r.push(outs[i].output.duplicate());
            i = i + 1;
        }
        assert(r@.map_values(|o: TXOutput| o@) =~= us.map_values(|u: UtxoModel| u.output));
        r
    }

    /// The balance of `pub_key_hash`: the sum of its unspent outputs.
    pub fn get_balance(&self, pub_key_hash: &Vec<u8>) -> (r: i128)
        requires
            self.wf(),
        ensures
            r == sum_values(utxos(scan_txs(self@), pub_key_hash@)),
    {
        let outs = self.find_unspent_outputs(pub_key_hash);
        let ghost us = utxo_views(outs@);
        let mut acc: i128 = 0;
        let mut i: usize = 0;
        while i < outs.len()
            invariant
                i <= outs@.len(),
                us == utxo_views(outs@),
                acc == sum_values(us.take(i as int)),
                -(i as int) * 0x8000_0000_0000_0000 <= acc <= (i as int) * 0x8000_0000_0000_0000,
            decreases outs@.len() - i,
        {
            let v = outs[i].output.value;
            proof {
                lemma_sum_step(us, i as int);
            }
            assert(us[i as int].output.value == v);
            proof {
                let ii = i as int;
                assert(ii < 0x1_0000_0000_0000_0000) by {
                    assert(outs@.len() <= usize::MAX);
                }
                assert(-(ii + 1) * 0x8000_0000_0000_0000 <= acc + v <= (ii + 1) * 0x8000_0000_0000_0000)
                    by (nonlinear_arith)
                    requires
                        -ii * 0x8000_0000_0000_0000 <= acc <= ii * 0x8000_0000_0000_0000,
                        -0x8000_0000_0000_0000 <= v < 0x8000_0000_0000_0000,
                ;
                assert((ii + 1) * 0x8000_0000_0000_0000 <= 0x8000_0000_0000_0000_0000_0000_0000_0000)
                    by (nonlinear_arith)
                    requires
                        ii + 1 <= 0x1_0000_0000_0000_0000,
                ;
            }
            acc = acc + v as i128;
            i = i + 1;
        }
        assert(us.take(us.len() as int) =~= us);
        acc
    }

    /// Picks unspent outputs of `pub_key_hash` in the order of
    /// `find_unspent_outputs` until their values reach `amount`, and returns
    /// the sum gathered with the outputs picked. When all of them fall short
    /// the sum is below `amount`.
    pub fn find_spendable_outputs(&self, pub_key_hash: &Vec<u8>, amount: i64) -> (r: (
        i128,
        Vec<UnspentOutput>,
    ))
        requires
            self.wf(),
        ensures
            ({
                let c = utxos(scan_txs(self@), pub_key_hash@);
                let m = spend_count(c, amount as int);
                &&& m <= c.len()
                &&& utxo_views(r.1@) == c.take(m as int)
                &&& r.0 == sum_values(c.take(m as int))
                &&& r.0 <= 0 || r.0 < amount + 0x8000_0000_0000_0000
            }),
    {
        let outs = self.find_unspent_outputs(pub_key_hash);
        let ghost c = utxo_views(outs@);
        let mut picked: Vec<UnspentOutput> = Vec::new();
        let mut acc: i128 = 0;
        let mut i: usize = 0;
        assert(c.skip(0) =~= c);
        assert(c.take(0) =~= Seq::<UtxoModel>::empty());
        assert(utxo_views(picked@) =~= Seq::<UtxoModel>::empty());
        while i < outs.len() && acc < amount as i128
            invariant
                i <= outs@.len(),
                c == utxo_views(outs@),
                acc == sum_values(c.take(i as int)),
                utxo_views(picked@) == c.take(i as int),
                spend_count(c, amount as int) == i + spend_count(c.skip(i as int), amount - acc),
                -(i as int) * 0x8000_0000_0000_0000 <= acc <= 0x1_0000_0000_0000_0000,
                acc <= 0 || acc < amount + 0x8000_0000_0000_0000,
            decreases outs@.len() - i,
        {
            let v = outs[i].output.value;
            assert(c[i as int].output.value == v);
            proof {
                lemma_sum_step(c, i as int);
                let ii = i as int;
                assert(ii < 0x1_0000_0000_0000_0000) by {
                    assert(outs@.len() <= usize::MAX);
                }
                assert(-(ii + 1) * 0x8000_0000_0000_0000 <= acc + v) by (nonlinear_arith)
                    requires
                        -ii * 0x8000_0000_0000_0000 <= acc,
                        -0x8000_0000_0000_0000 <= v,
                ;
                assert((ii + 1) * 0x8000_0000_0000_0000 <= 0x8000_0000_0000_0000_0000_0000_0000_0000)
                    by (nonlinear_arith)
                    requires
                        ii + 1 <= 0x1_0000_0000_0000_0000,
                ;
                assert(c.skip(i as int).drop_first() =~= c.skip(i + 1));
                assert(c.skip(i as int)[0] == c[i as int]);
            }
            acc = acc + v as i128;
            let ghost before = picked@;
            picked.push(outs[i].duplicate());
            assert(utxo_views(picked@) =~= utxo_views(before).push(c[i as int]));
            i = i + 1;
        }
        proof {
            if i == outs.len() {
                assert(c.skip(i as int).len() == 0);
            }
        }
        (acc, picked)
    }

    /// The transactions that the inputs of `tx` spend, as found on a walk
    /// from the tip; a lookup in them answers as a lookup in the chain.
    fn collect_prev_txs(&self, tx: &Transaction) -> (r: Vec<Transaction>)
        requires
            self.wf(),
        ensures
            forall|j: int|
                0 <= j < tx@.vin.len() ==> find_tx(
                    r@.map_values(|t: Transaction| t@),
                    (#[trigger] tx@.vin[j]).txid,
                ) == find_tx(scan_txs(self@), tx@.vin[j].txid),
    {
        let all = self.scan();
        let ghost s = scan_txs(self@);
        let mut prevs: Vec<Transaction> = Vec::new();
        let mut i: usize = 0;
        while i < tx.vin.len()
            invariant
                i <= tx.vin@.len(),
                s == all@.map_values(|t: Transaction| t@),
                forall|q: int|
                    0 <= q < prevs@.len() ==> find_tx(s, (#[trigger] prevs@[q])@.id) == Some(prevs@[q]@),
                forall|j: int|
                    0 <= j < i ==> (find_tx(s, (#[trigger] tx@.vin[j]).txid) is Some ==> exists|q: int|
                        0 <= q < prevs@.len() && (#[trigger] prevs@[q])@.id == tx@.vin[j].txid),
            decreases tx.vin@.len() - i,
        {
            assert(tx@.vin[i as int] == tx.vin@[i as int]@);
            match find_in(&all, &tx.vin[i].txid) {
                Some(idx) => {
                    let ghost before = prevs@;
                    prevs.push(all[idx].duplicate());
                    assert(prevs@[before.len() as int]@ == all@[idx as int]@);
                    assert(forall|q: int| 0 <= q < before.len() ==> prevs@[q] == before[q]);
                    assert forall|j: int|
                        0 <= j <= i implies (find_tx(s, (#[trigger] tx@.vin[j]).txid) is Some ==> exists|q: int|
                        0 <= q < prevs@.len() && (#[trigger] prevs@[q])@.id == tx@.vin[j].txid) by {
                        if j < i && find_tx(s, tx@.vin[j].txid) is Some {
                            let q = choose|q: int|
                                0 <= q < before.len() && (#[trigger] before[q])@.id == tx@.vin[j].txid;
                            assert(prevs@[q] == before[q]);
                        }
                        if j == i {
                            assert(prevs@[before.len() as int]@.id == tx@.vin[j].txid);
                        }
                    }
                },
                None => {},
            }
            i = i + 1;
        }
        proof {
            let ps = prevs@.map_values(|t: Transaction| t@);
            assert forall|j: int| 0 <= j < tx@.vin.len() implies find_tx(ps, (#[trigger] tx@.vin[j]).txid)
                == find_tx(s, tx@.vin[j].txid) by {
                assert forall|q: int| 0 <= q < ps.len() implies find_tx(s, (#[trigger] ps[q]).id) == Some(ps[q]) by {
                    assert(ps[q] == prevs@[q]@);
                }
                if find_tx(s, tx@.vin[j].txid) is Some {
                    let q = choose|q: int| 0 <= q < prevs@.len() && (#[trigger] prevs@[q])@.id == tx@.vin[j].txid;
                    assert(ps[q].id == tx@.vin[j].txid);
                }
                lemma_lookup_agree(tx@, ps, s, j);
            }
        }
        prevs
    }

    /// Verifies `tx` against the transactions of the chain that its inputs
    /// spend.
    pub fn verify_transaction(&self, tx: &Transaction) -> (r: Result<bool, LedgerError>)
        requires
            self.wf(),
        ensures
            r == verify_spec(tx@, scan_txs(self@)),
    {
        if tx.is_coinbase() {
            return Ok(true);
        }
        let prevs = self.collect_prev_txs(tx);
        proof {
            lemma_verify_same_lookups(tx@, prevs@.map_values(|t: Transaction| t@), scan_txs(self@), 0);
        }
        tx.verify(&prevs)
    }

    /// Signs every input of `tx` with the hex-encoded secret key
    /// `priv_key`, against the transactions of the chain that they spend.
    /// On an error `tx` is left as it was.
    pub fn sign_transaction(&self, tx: &mut Transaction, priv_key: &str) -> (r: Result<(), LedgerError>)
        requires
            self.wf(),
        ensures
            ({
                let s = scan_txs(self@);
                let sk = hex_decoded(priv_key@);
                if !hex_decodable(priv_key@) {
                    r == Err::<(), LedgerError>(LedgerError::DecodeError) && final(tx)@ == old(tx)@
                } else if is_coinbase_spec(old(tx)@) {
                    r is Ok && final(tx)@ == old(tx)@
                } else {
                    match sign_error(old(tx)@, s, sk) {
                        Some(e) => r == Err::<(), LedgerError>(e) && final(tx)@ == old(tx)@,
                        None => r is Ok && final(tx)@ == signed(old(tx)@, s, sk),
                    }
                }
            }),
    {
        let sk = match hex_decode(priv_key) {
            Some(k) => k,
            None => return Err(LedgerError::DecodeError),
        };
        let prevs = self.collect_prev_txs(tx);
        proof {
            lemma_sign_same_lookups(tx@, prevs@.map_values(|t: Transaction| t@), scan_txs(self@), sk@, 0);
        }
        tx.sign(&sk, &prevs)
    }

    /// The first transaction with id `id` met on a walk from the tip.
    pub fn find_transaction(&self, id: &Vec<u8>) -> (r: Result<Transaction, LedgerError>)
        requires
            self.wf(),
        ensures
            match find_tx(scan_txs(self@), id@) {
                Some(t) => r is Ok && r.unwrap()@ == t,
                None => r == Err::<Transaction, LedgerError>(LedgerError::TransactionNotFound),
            },
    {
        let all = self.scan();
        match find_in(&all, id) {
            Some(i) => Ok(all[i].duplicate()),
            None => Err(LedgerError::TransactionNotFound),
        }
    }
}

/// A walk from the tip to the genesis block, one block at a time. It cannot
/// be restarted: ask the chain for a new one.
pub struct BlockchainIterator<'a> {
    /// The hash of the block that the next step returns.
    pub current_hash: Vec<u8>,
    pub chain: &'a Blockchain,
    /// How many blocks are still to come.
    pub remaining: usize,
}

impl<'a> BlockchainIterator<'a> {
    /// The walk is over a well-formed chain; while blocks remain, the current
    /// hash is the hash of the next block to return, and once the genesis
    /// block has been returned it is empty.
    pub open spec fn wf(&self) -> bool {
        &&& self.chain.wf()
        &&& self.remaining <= self.chain@.len()
        &&& self.remaining > 0 ==> self.current_hash@ == self.chain@[self.remaining - 1].hash
        &&& self.remaining == 0 ==> self.current_hash@.len() == 0
    }

    /// The block whose hash is the current hash, after which the current
    /// hash moves to that block's predecessor; `None`, with nothing changed,
    /// once the genesis block has been returned.
    pub fn next(&mut self) -> (r: Option<Block>)
        requires
            old(self).wf(),
        ensures
            final(self).wf(),
            final(self).chain == old(self).chain,
            old(self).remaining == 0 ==> r is None && final(self).remaining == 0
                && final(self).current_hash == old(self).current_hash,
            old(self).remaining > 0 ==> {
                &&& r is Some
                &&& r.unwrap()@.hash == old(self).current_hash@
                &&& r.unwrap()@ == old(self).chain@[old(self).remaining - 1]
                &&& final(self).remaining == old(self).remaining - 1
                &&& final(self).current_hash@ == r.unwrap()@.prev_block_hash
            },
    {
        if self.remaining == 0 {
            return None;
        }
        let b = self.chain.blocks[self.remaining - 1].duplicate();
        self.current_hash = copy_bytes(&b.prev_block_hash);
        self.remaining = self.remaining - 1;
        proof {
            let c = self.chain@;
            let k = self.remaining as int;
            if k > 0 {
                assert(c[k + 1 - 1].prev_block_hash == c[k - 1].hash);
            }
        }
        Some(b)
    }
}

} // verus!

verus! {

// ---------------------------------------------------------------- laws

/// The genesis block of a well-formed chain has no predecessor and holds
/// exactly one transaction, a coinbase.
pub proof fn lemma_genesis_invariant(bc: &Blockchain)
    requires
        bc.wf(),
    ensures
        bc@[0].prev_block_hash.len() == 0,
        bc@[0].transactions.len() == 1,
        is_coinbase_spec(bc@[0].transactions[0]),
{
}

/// The value locked to `pkh` among the first `n` outputs of the `k`-th
/// scanned transaction.
pub open spec fn received_in(s: Seq<TxModel>, k: int, pkh: Seq<u8>, n: nat) -> int
    decreases n,
{
    if n == 0 {
        0
    } else {
        received_in(s, k, pkh, (n - 1) as nat) + if s[k].vout[n - 1].pub_key_hash == pkh {
            s[k].vout[n - 1].value as int
        } else {
            0
        }
    }
}

/// The value locked to `pkh` among the first `n` outputs of the `k`-th
/// scanned transaction that a later transaction spends under `pkh`.
pub open spec fn spent_in(s: Seq<TxModel>, k: int, pkh: Seq<u8>, n: nat) -> int
    decreases n,
{
    if n == 0 {
        0
    } else {
        spent_in(s, k, pkh, (n - 1) as nat) + if s[k].vout[n - 1].pub_key_hash == pkh && spent_before(
            s,
            k,
            pkh,
            s[k].id,
            n - 1,
        ) {
            s[k].vout[n - 1].value as int
        } else {
            0
        }
    }
}

/// All value ever sent to `pkh` in the first `k` scanned transactions.
pub open spec fn received_upto(s: Seq<TxModel>, pkh: Seq<u8>, k: nat) -> int
    decreases k,
{
    if k == 0 {
        0
    } else {
        received_upto(s, pkh, (k - 1) as nat) + received_in(s, k - 1, pkh, s[k - 1].vout.len())
    }
}

/// All value sent to `pkh` in the first `k` scanned transactions that `pkh`
/// has spent since.
pub open spec fn spent_upto(s: Seq<TxModel>, pkh: Seq<u8>, k: nat) -> int
    decreases k,
{
    if k == 0 {
        0
    } else {
        spent_upto(s, pkh, (k - 1) as nat) + spent_in(s, k - 1, pkh, s[k - 1].vout.len())
    }
}

proof fn lemma_sum_concat(a: Seq<UtxoModel>, b: Seq<UtxoModel>)
    ensures
        sum_values(a + b) == sum_values(a) + sum_values(b),
    decreases b.len(),
{
    if b.len() == 0 {
        assert(a + b =~= a);
    } else {
        assert((a + b).drop_last() =~= a + b.drop_last());
        lemma_sum_concat(a, b.drop_last());
    }
}

proof fn lemma_tx_conservation(s: Seq<TxModel>, k: int, pkh: Seq<u8>, n: nat)
    ensures
        sum_values(tx_utxos(s, k, pkh, n)) == received_in(s, k, pkh, n) - spent_in(s, k, pkh, n),
    decreases n,
{
    if n > 0 {
        lemma_tx_conservation(s, k, pkh, (n - 1) as nat);
        let prev = tx_utxos(s, k, pkh, (n - 1) as nat);
        let u = utxo_at(s, k, n - 1);
        if is_unspent(s, k, n - 1, pkh) {
            assert(tx_utxos(s, k, pkh, n) == prev + seq![u]);
            lemma_sum_concat(prev, seq![u]);
            assert(seq![u].drop_last() =~= Seq::<UtxoModel>::empty());
            reveal_with_fuel(sum_values, 2);
            assert(sum_values(seq![u]) == u.output.value);
        } else {
            assert(tx_utxos(s, k, pkh, n) == prev + Seq::<UtxoModel>::empty());
            assert(prev + Seq::<UtxoModel>::empty() =~= prev);
        }
    }
}

proof fn lemma_conservation_upto(s: Seq<TxModel>, pkh: Seq<u8>, k: nat)
    requires
        k <= s.len(),
    ensures
        sum_values(utxos_upto(s, pkh, k)) == received_upto(s, pkh, k) - spent_upto(s, pkh, k),
    decreases k,
{
    if k > 0 {
        lemma_conservation_upto(s, pkh, (k - 1) as nat);
        lemma_sum_concat(utxos_upto(s, pkh, (k - 1) as nat), tx_utxos(s, k - 1, pkh, s[k - 1].vout.len()));
        lemma_tx_conservation(s, k - 1, pkh, s[k - 1].vout.len());
    }
}

/// The unspent value of a key hash is all value ever sent to it less the
/// value of those outputs that later transactions in the chain spend with
/// its key.
pub proof fn lemma_utxo_conservation(bc: &Blockchain, pkh: Seq<u8>)
    requires
        bc.wf(),
    ensures
        ({
            let s = scan_txs(bc@);
            sum_values(utxos(s, pkh)) == received_upto(s, pkh, s.len()) - spent_upto(s, pkh, s.len())
        }),
{
    lemma_conservation_upto(scan_txs(bc@), pkh, scan_txs(bc@).len());
}

/// Where an unspent output comes from: output `o` of the `k`-th scanned
/// transaction, locked to `pkh`, spent by no later transaction under `pkh`.
pub open spec fn unspent_origin(s: Seq<TxModel>, pkh: Seq<u8>, u: UtxoModel, k: int) -> bool {
    &&& 0 <= k < s.len()
    &&& 0 <= u.index < s[k].vout.len()
    &&& u == utxo_at(s, k, u.index)
    &&& u.output.pub_key_hash == pkh
    &&& forall|j: int| 0 <= j < k ==> !spends(#[trigger] s[j], pkh, u.txid, u.index)
}

proof fn lemma_tx_utxos_origin(s: Seq<TxModel>, k: int, pkh: Seq<u8>, n: nat)
    requires
        0 <= k < s.len(),
        n <= s[k].vout.len(),
    ensures
        forall|x: int| 0 <= x < tx_utxos(s, k, pkh, n).len() ==> unspent_origin(s, pkh, #[trigger] tx_utxos(s, k, pkh, n)[x], k),
    decreases n,
{
    if n > 0 {
        lemma_tx_utxos_origin(s, k, pkh, (n - 1) as nat);
        let prev = tx_utxos(s, k, pkh, (n - 1) as nat);
        let cur = tx_utxos(s, k, pkh, n);
        let u = utxo_at(s, k, n - 1);
        if is_unspent(s, k, n - 1, pkh) {
            assert(cur == prev + seq![u]);
            assert forall|j: int| 0 <= j < k implies !spends(#[trigger] s[j], pkh, u.txid, u.index) by {
                if spends(s[j], pkh, u.txid, u.index) {
                    assert(spent_before(s, k, pkh, s[k].id, n - 1));
                }
            }
            assert(unspent_origin(s, pkh, u, k));
        } else {
            assert(cur == prev + Seq::<UtxoModel>::empty());
        }
        assert forall|x: int| 0 <= x < cur.len() implies unspent_origin(s, pkh, #[trigger] cur[x], k) by {
            if x < prev.len() {
                assert(cur[x] == prev[x]);
            }
        }
    }
}

/// The unspent output has an origin in the scan.
pub open spec fn has_origin(s: Seq<TxModel>, pkh: Seq<u8>, u: UtxoModel) -> bool {
    exists|k: int| unspent_origin(s, pkh, u, k)
}

proof fn lemma_utxos_origin(s: Seq<TxModel>, pkh: Seq<u8>, k: nat)
    requires
        k <= s.len(),
    ensures
        forall|x: int| 0 <= x < utxos_upto(s, pkh, k).len() ==> has_origin(s, pkh, #[trigger] utxos_upto(s, pkh, k)[x]),
    decreases k,
{
    if k > 0 {
        lemma_utxos_origin(s, pkh, (k - 1) as nat);
        lemma_tx_utxos_origin(s, k - 1, pkh, s[k - 1].vout.len());
        let a = utxos_upto(s, pkh, (k - 1) as nat);
        let b = tx_utxos(s, k - 1, pkh, s[k - 1].vout.len());
        assert(utxos_upto(s, pkh, k) == a + b);
        assert forall|x: int| 0 <= x < utxos_upto(s, pkh, k).len() implies has_origin(s, pkh, #[trigger] utxos_upto(s, pkh, k)[x]) by {
            if x < a.len() {
                assert(utxos_upto(s, pkh, k)[x] == a[x]);
            } else {
                assert(utxos_upto(s, pkh, k)[x] == b[x - a.len()]);
                assert(unspent_origin(s, pkh, b[x - a.len()], k - 1));
            }
        }
    }
}

/// Every output that the unspent-output query returns for a key hash is an
/// output locked to it that no later transaction in the chain spends with
/// that key: an output once spent never comes back.
pub proof fn lemma_spend_once(bc: &Blockchain, pkh: Seq<u8>)
    requires
        bc.wf(),
    ensures
        forall|x: int|
            0 <= x < utxos(scan_txs(bc@), pkh).len() ==> has_origin(scan_txs(bc@), pkh, #[trigger] utxos(scan_txs(bc@), pkh)[x]),
{
    let s = scan_txs(bc@);
    lemma_utxos_origin(s, pkh, s.len());
}

} // verus!
