use vstd::prelude::*;
use crate::codec::{
    block_sized, decode_block, enc_block, get_block, input_sized, lemma_block_round_trip,
    output_sized, put_block, tx_sized,
};
use crate::crypto::{sha256, sha256_of};
use crate::error::LedgerError;
use crate::pow::{below_target, pow_hash, sealed, ProofOfWork, MAX_NONCE};
use crate::transaction::{copy_bytes, Transaction, TxModel};

verus! {

/// The mathematical value of a block.
pub struct BlockModel {
    pub prev_block_hash: Seq<u8>,
    pub transactions: Seq<TxModel>,
    pub timestamp: i64,
    pub hash: Seq<u8>,
    pub nonce: u64,
}

/// A sealed unit of the chain: the hash of its predecessor, its
/// transactions, when it was made, and the nonce that solves its puzzle.
#[derive(Clone, Debug)]
pub struct Block {
    /// Empty for the genesis block.
    pub prev_block_hash: Vec<u8>,
    pub transactions: Vec<Transaction>,
    /// Seconds since the Unix epoch.
    pub timestamp: i64,
    pub hash: Vec<u8>,
    pub nonce: u64,
}

impl View for Block {
    type V = BlockModel;

    open spec fn view(&self) -> BlockModel {
        BlockModel {
            prev_block_hash: self.prev_block_hash@,
            transactions: self.transactions@.map_values(|t: Transaction| t@),
            timestamp: self.timestamp,
            hash: self.hash@,
            nonce: self.nonce,
        }
    }
}


/// The ids of the transactions, one after another.
pub open spec fn concat_ids(txs: Seq<TxModel>) -> Seq<u8>
    decreases txs.len(),
{
    if txs.len() == 0 {
        Seq::empty()
    } else {
        concat_ids(txs.drop_last()) + txs.last().id
    }
}

/// The digest that stands for a block's transactions in its puzzle.
pub open spec fn tx_digest(b: BlockModel) -> Seq<u8> {
    sha256_of(concat_ids(b.transactions))
}

/// The block before mining: no hash and nonce zero.
pub open spec fn unsealed(prev: Seq<u8>, txs: Seq<TxModel>, timestamp: i64) -> BlockModel {
    BlockModel { prev_block_hash: prev, transactions: txs, timestamp, hash: Seq::empty(), nonce: 0 }
}

/// Relies on `std::time::SystemTime::elapsed` on the Unix epoch: the current
/// time in seconds, of which nothing can be promised.
#[verifier::external_body]
fn unix_time_now() -> (r: i64) {
    match std::time::UNIX_EPOCH.elapsed() {
        Ok(d) => d.as_secs() as i64,
        Err(_) => 0,
    }
}

impl Block {
    pub fn duplicate(&self) -> (r: Block)
        ensures
            r@ == self@,
    {
        let mut txs: Vec<Transaction> = Vec::new();
        let mut i: usize = 0;
        while i < self.transactions.len()
            invariant
                i <= self.transactions@.len(),
                txs@.len() == i,
                forall|j: int| 0 <= j < i ==> #[trigger] txs@[j]@ == self.transactions@[j]@,
            decreases self.transactions@.len() - i,
        {
            txs.push(self.transactions[i].duplicate());
            i = i + 1;
        }
        let r = Block {
            prev_block_hash: copy_bytes(&self.prev_block_hash),
            transactions: txs,
            timestamp: self.timestamp,
            hash: copy_bytes(&self.hash),
            nonce: self.nonce,
        };
        assert(r@.transactions =~= self@.transactions);
        r
    }

    /// Mines a block on top of `prev_block_hash` with the given timestamp:
    /// the nonce is the first that solves the puzzle, the hash its hash.
    pub fn mine(transactions: Vec<Transaction>, prev_block_hash: Vec<u8>, timestamp: i64) -> (r:
        Result<Block, LedgerError>)
        ensures
            ({
                let u = unsealed(prev_block_hash@, transactions@.map_values(|t: Transaction| t@), timestamp);
                match r {
                    Ok(b) => {
                        &&& b@ == (BlockModel { hash: b@.hash, nonce: b@.nonce, ..u })
                        &&& sealed(b@)
                        &&& b.nonce < MAX_NONCE
                        &&& forall|m: u64| m < b.nonce ==> !below_target(#[trigger] pow_hash(u, m))
                    },
                    Err(e) => {
                        &&& e == LedgerError::MiningExhausted
                        &&& forall|m: u64| m < MAX_NONCE ==> !below_target(#[trigger] pow_hash(u, m))
                    },
                }
            }),
    {
        let mut block = Block { prev_block_hash, transactions, timestamp, hash: Vec::new(), nonce: 0 };
        let ghost u = block@;
        let found = {
            let pow = ProofOfWork::new(&block);
            pow.run()
        };
        match found {
            Ok((nonce, hash)) => {
                block.hash = hash;
                block.nonce = nonce;
                assert(pow_hash(block@, nonce) == pow_hash(u, nonce));
                Ok(block)
            },
            Err(e) => Err(e),
        }
    }

    /// Mines a block on top of `prev_block_hash`, stamped with the current
    /// time.
    pub fn new(transactions: Vec<Transaction>, prev_block_hash: Vec<u8>) -> (r: Result<Block, LedgerError>)
        ensures
            match r {
                Ok(b) => {
                    let u = unsealed(prev_block_hash@, transactions@.map_values(|t: Transaction| t@), b.timestamp);
                    &&& b@ == (BlockModel { hash: b@.hash, nonce: b@.nonce, ..u })
                    &&& sealed(b@)
                    &&& b.nonce < MAX_NONCE
                    &&& forall|m: u64| m < b.nonce ==> !below_target(#[trigger] pow_hash(u, m))
                },
                Err(e) => e == LedgerError::MiningExhausted,
            },
    {
        let timestamp = unix_time_now();
        Block::mine(transactions, prev_block_hash, timestamp)
    }

    /// The first block of a chain: one coinbase transaction and no
    /// predecessor.
    pub fn genesis(coinbase: Transaction) -> (r: Result<Block, LedgerError>)
        ensures
            match r {
                Ok(b) => {
                    &&& b@.prev_block_hash.len() == 0
                    &&& b@.transactions == seq![coinbase@]
                    &&& sealed(b@)
                },
                Err(e) => e == LedgerError::MiningExhausted,
            },
    {
        let txs = vec![coinbase];
        assert(txs@.map_values(|t: Transaction| t@) =~= seq![coinbase@]);
        Block::new(txs, Vec::new())
    }

    /// The digest of the concatenated transaction ids.
    pub fn hash_transactions(&self) -> (r: Vec<u8>)
        ensures
            r@ == tx_digest(self@),
            r@.len() == 32,
    {
        let ghost txs = self@.transactions;
        let mut all: Vec<u8> = Vec::new();
        let mut i: usize = 0;
        while i < self.transactions.len()
            invariant
                i <= self.transactions@.len(),
                txs == self@.transactions,
                all@ == concat_ids(txs.take(i as int)),
            decreases self.transactions@.len() - i,
        {
            let id = copy_bytes(&self.transactions[i].id);
            let mut j: usize = 0;
            let ghost before = all@;
            while j < id.len()
                invariant
                    j <= id@.len(),
                    all@ == before + id@.take(j as int),
                decreases id@.len() - j,
            {
                all.push(id[j]);
                j = j + 1;
                assert(all@ =~= before + id@.take(j as int));
            }
            assert(id@.take(id@.len() as int) =~= id@);
            assert(txs.take(i + 1).drop_last() =~= txs.take(i as int));
            i = i + 1;
        }
        assert(txs.take(txs.len() as int) =~= txs);
        sha256(all.as_slice())
    }

    /// Whether this block is sealed: its nonce solves its puzzle and its
    /// hash is the hash under that nonce.
    pub fn is_sealed(&self) -> (r: bool)
        ensures
            r == sealed(self@),
    {
        let pow = ProofOfWork::new(self);
        let data = pow.prepare_data(self.nonce);
        let hash = sha256(data.as_slice());
        pow.validate() && self.hash.len() == 32 && crate::transaction::bytes_eq(&hash, &self.hash)
    }

    /// The stored form of this block.
    pub fn serialize(&self) -> (r: Vec<u8>)
        ensures
            r@ == enc_block(self@),
    {
        let mut out: Vec<u8> = Vec::new();
        put_block(&mut out, self);
        assert(out@ =~= enc_block(self@));
        out
    }
}

/// Reads a block back from its stored form.
pub fn deserialize_block(d: &[u8]) -> (r: Result<Block, LedgerError>)
    ensures
        match decode_block(d@) {
            None => r == Err::<Block, LedgerError>(LedgerError::DecodeError),
            Some(b) => r is Ok && r.unwrap()@ == b,
        },
{
    match get_block(d) {
        Some(b) => Ok(b),
        None => Err(LedgerError::DecodeError),
    }
}

/// Every length in a block that the library holds fits its `u64` prefix.
pub proof fn lemma_block_view_sized(b: Block)
    ensures
        block_sized(b@),
{
    let m = b@;
    assert(b.prev_block_hash@.len() == b.prev_block_hash.len());
    assert(b.hash@.len() == b.hash.len());
    assert(b.transactions@.len() == b.transactions.len());
    assert forall|j: int| 0 <= j < m.transactions.len() implies tx_sized(#[trigger] m.transactions[j]) by {
        let t = b.transactions@[j];
        assert(m.transactions[j] == t@);
        assert(t.id@.len() == t.id.len());
        assert(t.vin@.len() == t.vin.len());
        assert(t.vout@.len() == t.vout.len());
        if let Some(bb) = t.bundle {
            assert(bb@.len() == bb.len());
        }
        assert forall|k: int| 0 <= k < t@.vin.len() implies input_sized(#[trigger] t@.vin[k]) by {
            let x = t.vin@[k];
            assert(t@.vin[k] == x@);
            assert(x.txid@.len() == x.txid.len());
            assert(x.signature@.len() == x.signature.len());
            assert(x.pub_key@.len() == x.pub_key.len());
        }
        assert forall|k: int| 0 <= k < t@.vout.len() implies output_sized(#[trigger] t@.vout[k]) by {
            let x = t.vout@[k];
            assert(t@.vout[k] == x@);
            assert(x.pub_key_hash@.len() == x.pub_key_hash.len());
        }
    }
}

/// Reading back the stored form of a block gives a block with the same
/// fields, whatever number of transactions it holds.
pub proof fn lemma_serialize_round_trip(b: Block)
    ensures
        decode_block(enc_block(b@)) == Some(b@),
{
    lemma_block_view_sized(b);
    lemma_block_round_trip(b@);
}

} // verus!
