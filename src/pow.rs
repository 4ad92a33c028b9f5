//! The proof-of-work puzzle: a block is sealed by a nonce whose hash, read
//! as a little-endian integer, lies below a fixed target.
use vstd::prelude::*;
use vstd::arithmetic::power2::{lemma2_to64, lemma_pow2_adds, pow2};
use vstd::bytes::{spec_u32_to_le_bytes, spec_u64_to_le_bytes, u32_to_le_bytes, u64_to_le_bytes};
use crate::block::{tx_digest, Block, BlockModel};
use crate::crypto::{sha256, sha256_of};
use crate::error::LedgerError;

verus! {

/// The difficulty: a hash must have this many leading zero bits, counted
/// from the most significant end of its little-endian value.
pub const TARGET_BITS: u32 = 8;

/// Mining gives up once the nonce reaches this bound.
pub const MAX_NONCE: u64 = 0x7fff_ffff_ffff_ffff;

/// The unsigned integer that a byte string encodes, least significant byte
/// first.
pub open spec fn le_value(s: Seq<u8>) -> nat
    decreases s.len(),
{
    if s.len() == 0 {
        0
    } else {
        le_value(s.drop_last()) + pow2((8 * (s.len() - 1)) as nat) * (s.last() as nat)
    }
}

/// The bound that a block hash must stay under.
pub open spec fn target() -> nat {
    pow2((256 - TARGET_BITS) as nat)
}

pub open spec fn below_target(h: Seq<u8>) -> bool {
    le_value(h) < target()
}

/// The bytes that are hashed to test a nonce for a block.
pub open spec fn prepare_data_spec(b: BlockModel, nonce: u64) -> Seq<u8> {
    b.prev_block_hash + tx_digest(b) + spec_u64_to_le_bytes(b.timestamp as u64)
        + spec_u32_to_le_bytes(TARGET_BITS) + spec_u64_to_le_bytes(nonce)
}

/// The hash of a block under a given nonce.
pub open spec fn pow_hash(b: BlockModel, nonce: u64) -> Seq<u8> {
    sha256_of(prepare_data_spec(b, nonce))
}

/// The block's own nonce solves its puzzle.
pub open spec fn pow_valid(b: BlockModel) -> bool {
    below_target(pow_hash(b, b.nonce))
}

/// The block is sealed: its nonce solves the puzzle and its hash is the
/// hash under that nonce.
pub open spec fn sealed(b: BlockModel) -> bool {
    pow_valid(b) && b.hash == pow_hash(b, b.nonce) && b.hash.len() == 32
}

/// The puzzle hash depends on the previous hash, the transaction digest,
/// the timestamp and the nonce alone: the same values give the same hash.
pub proof fn lemma_pow_hash_deterministic(a: BlockModel, b: BlockModel, nonce: u64)
    requires
        a.prev_block_hash == b.prev_block_hash,
        tx_digest(a) == tx_digest(b),
        a.timestamp == b.timestamp,
    ensures
        prepare_data_spec(a, nonce) == prepare_data_spec(b, nonce),
        pow_hash(a, nonce) == pow_hash(b, nonce),
{
}

proof fn lemma_le_value_bound(s: Seq<u8>)
    ensures
        le_value(s) < pow2((8 * s.len()) as nat),
    decreases s.len(),
{
    lemma2_to64();
    if s.len() > 0 {
        let n = s.len();
        lemma_le_value_bound(s.drop_last());
        let p = pow2((8 * (n - 1)) as nat);
        let a = le_value(s.drop_last());
        let l = s.last() as nat;
        lemma2_to64();
        lemma_pow2_adds((8 * (n - 1)) as nat, 8);
        assert((8 * (n - 1)) as nat + 8 == (8 * n) as nat);
        assert(pow2((8 * n) as nat) == p * 256);
        assert(a + p * l < p * 256) by (nonlinear_arith)
            requires
                a < p,
                l <= 255,
        ;
    }
}

/// A 32-byte hash is below the target exactly when its most significant
/// byte is zero.
proof fn lemma_below_target_top_byte(h: Seq<u8>)
    requires
        h.len() == 32,
    ensures
        below_target(h) <==> h[31] == 0,
{
    let init = h.drop_last();
    lemma_le_value_bound(init);
    let p = pow2(248);
    assert(le_value(h) == le_value(init) + p * (h[31] as nat));
    if h[31] != 0 {
        assert(p * (h[31] as nat) >= p) by (nonlinear_arith)
            requires
                h[31] as nat >= 1,
        ;
    }
}

/// The puzzle of one block.
pub struct ProofOfWork<'a> {
    pub block: &'a Block,
}

impl<'a> ProofOfWork<'a> {
    pub fn new(block: &'a Block) -> (r: ProofOfWork<'a>)
        ensures
            r.block == block,
    {
        ProofOfWork { block }
    }

    /// The hash preimage for a nonce: previous hash, transaction digest,
    /// timestamp, difficulty and nonce, the integers little-endian.
    pub fn prepare_data(&self, nonce: u64) -> (r: Vec<u8>)
        ensures
            r@ == prepare_data_spec(self.block@, nonce),
    {
        let mut bytes: Vec<u8> = Vec::new();
        append(&mut bytes, &self.block.prev_block_hash);
        let trans = self.block.hash_transactions();
        append(&mut bytes, &trans);
        let timestamp = u64_to_le_bytes(self.block.timestamp as u64);
        append(&mut bytes, &timestamp);
        let bits = u32_to_le_bytes(TARGET_BITS);
        append(&mut bytes, &bits);
        let nonce_bytes = u64_to_le_bytes(nonce);
        append(&mut bytes, &nonce_bytes);
        assert(bytes@ =~= prepare_data_spec(self.block@, nonce));
        bytes
    }

    /// Whether the block's stored nonce solves its puzzle.
    pub fn validate(&self) -> (r: bool)
        ensures
            r == pow_valid(self.block@),
    {
        let data = self.prepare_data(self.block.nonce);
        let hash = sha256(data.as_slice());
        is_below_target(&hash)
    }

    /// Searches the nonces from zero up for the first that solves the
    /// puzzle, and returns it with its hash.
    pub fn run(&self) -> (r: Result<(u64, Vec<u8>), LedgerError>)
        ensures
            match r {
                Ok((nonce, hash)) => {
                    &&& nonce < MAX_NONCE
                    &&& hash@ == pow_hash(self.block@, nonce)
                    &&& hash@.len() == 32
                    &&& below_target(hash@)
                    &&& forall|m: u64| m < nonce ==> !below_target(#[trigger] pow_hash(self.block@, m))
                },
                Err(e) => {
                    &&& e == LedgerError::MiningExhausted
                    &&& forall|m: u64| m < MAX_NONCE ==> !below_target(#[trigger] pow_hash(self.block@, m))
                },
            },
    {
        let mut nonce: u64 = 0;
        while nonce < MAX_NONCE
            invariant
                nonce <= MAX_NONCE,
                forall|m: u64| m < nonce ==> !below_target(#[trigger] pow_hash(self.block@, m)),
            decreases MAX_NONCE - nonce,
        {
            let data = self.prepare_data(nonce);
            let hash = sha256(data.as_slice());
            if is_below_target(&hash) {
                return Ok((nonce, hash));
            }
            nonce = nonce + 1;
        }
        Err(LedgerError::MiningExhausted)
    }
}

fn append(out: &mut Vec<u8>, s: &Vec<u8>)
    ensures
        final(out)@ == old(out)@ + s@,
{
    let mut i: usize = 0;
    while i < s.len()
        invariant
            i <= s@.len(),
            out@ == old(out)@ + s@.take(i as int),
        decreases s@.len() - i,
    {
        out.push(s[i]);
        i = i + 1;
        assert(out@ =~= old(out)@ + s@.take(i as int));
    }
    assert(s@.take(s@.len() as int) =~= s@);
}

/// Compares a 32-byte hash, as a little-endian integer, with the target.
fn is_below_target(h: &Vec<u8>) -> (r: bool)
    requires
        h@.len() == 32,
    ensures
        r == below_target(h@),
{
    proof {
        lemma_below_target_top_byte(h@);
    }
    h[31] == 0
}

} // verus!
