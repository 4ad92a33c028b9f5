//! The byte encoding of transactions and blocks: every integer little-endian
//! in fixed width, every byte string and list prefixed by its length as a
//! `u64`, and an optional payload tagged with one byte.
use vstd::prelude::*;
use vstd::bytes::{
    spec_u32_from_le_bytes, spec_u32_to_le_bytes, spec_u64_from_le_bytes, spec_u64_to_le_bytes,
    lemma_auto_spec_u32_to_from_le_bytes, lemma_auto_spec_u64_to_from_le_bytes,
    u32_from_le_bytes, u32_to_le_bytes, u64_from_le_bytes, u64_to_le_bytes,
};
use vstd::slice::{slice_subrange, slice_to_vec};
use crate::block::{Block, BlockModel};
use crate::transaction::{InputModel, OutputModel, TXInput, TXOutput, Transaction, TxModel};

verus! {

// ---------------------------------------------------------------- encoding

pub open spec fn enc_u64(x: u64) -> Seq<u8> {
    spec_u64_to_le_bytes(x)
}

pub open spec fn enc_bytes(s: Seq<u8>) -> Seq<u8> {
    enc_u64(s.len() as u64) + s
}

pub open spec fn enc_input(i: InputModel) -> Seq<u8> {
    enc_bytes(i.txid) + spec_u32_to_le_bytes(i.vout as u32) + enc_bytes(i.signature) + enc_bytes(
        i.pub_key,
    )
}

pub open spec fn enc_output(o: OutputModel) -> Seq<u8> {
    enc_u64(o.value as u64) + enc_bytes(o.pub_key_hash)
}

pub open spec fn enc_inputs(s: Seq<InputModel>) -> Seq<u8>
    decreases s.len(),
{
    if s.len() == 0 {
        Seq::empty()
    } else {
        enc_inputs(s.drop_last()) + enc_input(s.last())
    }
}

pub open spec fn enc_outputs(s: Seq<OutputModel>) -> Seq<u8>
    decreases s.len(),
{
    if s.len() == 0 {
        Seq::empty()
    } else {
        enc_outputs(s.drop_last()) + enc_output(s.last())
    }
}

pub open spec fn enc_bundle(b: Option<Seq<u8>>) -> Seq<u8> {
    match b {
        Some(s) => seq![1u8] + enc_bytes(s),
        None => seq![0u8],
    }
}

/// The encoding of a transaction, which its id is the digest of.
pub open spec fn enc_tx(t: TxModel) -> Seq<u8> {
    enc_bytes(t.id) + enc_u64(t.vin.len() as u64) + enc_inputs(t.vin) + enc_u64(
        t.vout.len() as u64,
    ) + enc_outputs(t.vout) + enc_bundle(t.bundle)
}

pub open spec fn enc_txs(s: Seq<TxModel>) -> Seq<u8>
    decreases s.len(),
{
    if s.len() == 0 {
        Seq::empty()
    } else {
        enc_txs(s.drop_last()) + enc_tx(s.last())
    }
}

/// The stored form of a block.
pub open spec fn enc_block(b: BlockModel) -> Seq<u8> {
    enc_bytes(b.prev_block_hash) + enc_u64(b.transactions.len() as u64) + enc_txs(b.transactions)
        + enc_u64(b.timestamp as u64) + enc_bytes(b.hash) + enc_u64(b.nonce)
}

// ---------------------------------------------------------------- decoding

pub open spec fn dec_u64(d: Seq<u8>) -> Option<(u64, Seq<u8>)> {
    if d.len() < 8 {
        None
    } else {
        Some((spec_u64_from_le_bytes(d.take(8)), d.skip(8)))
    }
}

pub open spec fn dec_u32(d: Seq<u8>) -> Option<(u32, Seq<u8>)> {
    if d.len() < 4 {
        None
    } else {
        Some((spec_u32_from_le_bytes(d.take(4)), d.skip(4)))
    }
}

pub open spec fn dec_bytes(d: Seq<u8>) -> Option<(Seq<u8>, Seq<u8>)> {
    match dec_u64(d) {
        Some((n, r)) => if n <= r.len() {
            Some((r.take(n as int), r.skip(n as int)))
        } else {
            None
        },
        None => None,
    }
}

pub open spec fn dec_input(d: Seq<u8>) -> Option<(InputModel, Seq<u8>)> {
    match dec_bytes(d) {
        None => None,
        Some((txid, r1)) => match dec_u32(r1) {
            None => None,
            Some((v, r2)) => match dec_bytes(r2) {
                None => None,
                Some((sig, r3)) => match dec_bytes(r3) {
                    None => None,
                    Some((pk, r4)) => Some(
                        (InputModel { txid, vout: v as i32, signature: sig, pub_key: pk }, r4),
                    ),
                },
            },
        },
    }
}

pub open spec fn dec_output(d: Seq<u8>) -> Option<(OutputModel, Seq<u8>)> {
    match dec_u64(d) {
        None => None,
        Some((v, r1)) => match dec_bytes(r1) {
            None => None,
            Some((h, r2)) => Some((OutputModel { value: v as i64, pub_key_hash: h }, r2)),
        },
    }
}

pub open spec fn dec_inputs(d: Seq<u8>, n: nat) -> Option<(Seq<InputModel>, Seq<u8>)>
    decreases n,
{
    if n == 0 {
        Some((Seq::empty(), d))
    } else {
        match dec_inputs(d, (n - 1) as nat) {
            None => None,
            Some((xs, r)) => match dec_input(r) {
                None => None,
                Some((x, r2)) => Some((xs.push(x), r2)),
            },
        }
    }
}

pub open spec fn dec_outputs(d: Seq<u8>, n: nat) -> Option<(Seq<OutputModel>, Seq<u8>)>
    decreases n,
{
    if n == 0 {
        Some((Seq::empty(), d))
    } else {
        match dec_outputs(d, (n - 1) as nat) {
            None => None,
            Some((xs, r)) => match dec_output(r) {
                None => None,
                Some((x, r2)) => Some((xs.push(x), r2)),
            },
        }
    }
}

pub open spec fn dec_bundle(d: Seq<u8>) -> Option<(Option<Seq<u8>>, Seq<u8>)> {
    if d.len() == 0 {
        None
    } else if d[0] == 0 {
        Some((None, d.skip(1)))
    } else if d[0] == 1 {
        match dec_bytes(d.skip(1)) {
            None => None,
            Some((b, r)) => Some((Some(b), r)),
        }
    } else {
        None
    }
}

pub open spec fn dec_tx(d: Seq<u8>) -> Option<(TxModel, Seq<u8>)> {
    match dec_bytes(d) {
        None => None,
        Some((id, r1)) => match dec_u64(r1) {
            None => None,
            Some((ni, r2)) => match dec_inputs(r2, ni as nat) {
                None => None,
                Some((vin, r3)) => match dec_u64(r3) {
                    None => None,
                    Some((no, r4)) => match dec_outputs(r4, no as nat) {
                        None => None,
                        Some((vout, r5)) => match dec_bundle(r5) {
                            None => None,
                            Some((bundle, r6)) => Some((TxModel { id, vin, vout, bundle }, r6)),
                        },
                    },
                },
            },
        },
    }
}

pub open spec fn dec_txs(d: Seq<u8>, n: nat) -> Option<(Seq<TxModel>, Seq<u8>)>
    decreases n,
{
    if n == 0 {
        Some((Seq::empty(), d))
    } else {
        match dec_txs(d, (n - 1) as nat) {
            None => None,
            Some((xs, r)) => match dec_tx(r) {
                None => None,
                Some((x, r2)) => Some((xs.push(x), r2)),
            },
        }
    }
}

pub open spec fn dec_block(d: Seq<u8>) -> Option<(BlockModel, Seq<u8>)> {
    match dec_bytes(d) {
        None => None,
        Some((prev, r1)) => match dec_u64(r1) {
            None => None,
            Some((nt, r2)) => match dec_txs(r2, nt as nat) {
                None => None,
                Some((txs, r3)) => match dec_u64(r3) {
                    None => None,
                    Some((ts, r4)) => match dec_bytes(r4) {
                        None => None,
                        Some((hash, r5)) => match dec_u64(r5) {
                            None => None,
                            Some((nonce, r6)) => Some(
                                (
                                    BlockModel {
                                        prev_block_hash: prev,
                                        transactions: txs,
                                        timestamp: ts as i64,
                                        hash,
                                        nonce,
                                    },
                                    r6,
                                ),
                            ),
                        },
                    },
                },
            },
        },
    }
}

/// The block that a byte string holds, if it holds exactly one.
pub open spec fn decode_block(d: Seq<u8>) -> Option<BlockModel> {
    match dec_block(d) {
        Some((b, rest)) => if rest.len() == 0 {
            Some(b)
        } else {
            None
        },
        None => None,
    }
}


// ---------------------------------------------------------------- round trip

/// Every length in the value fits the `u64` prefix that encodes it.
pub open spec fn input_sized(i: InputModel) -> bool {
    &&& i.txid.len() <= u64::MAX
    &&& i.signature.len() <= u64::MAX
    &&& i.pub_key.len() <= u64::MAX
}

pub open spec fn output_sized(o: OutputModel) -> bool {
    o.pub_key_hash.len() <= u64::MAX
}

pub open spec fn tx_sized(t: TxModel) -> bool {
    &&& t.id.len() <= u64::MAX
    &&& t.vin.len() <= u64::MAX
    &&& t.vout.len() <= u64::MAX
    &&& forall|j: int| 0 <= j < t.vin.len() ==> input_sized(#[trigger] t.vin[j])
    &&& forall|j: int| 0 <= j < t.vout.len() ==> output_sized(#[trigger] t.vout[j])
    &&& match t.bundle {
        Some(b) => b.len() <= u64::MAX,
        None => true,
    }
}

pub open spec fn block_sized(b: BlockModel) -> bool {
    &&& b.prev_block_hash.len() <= u64::MAX
    &&& b.hash.len() <= u64::MAX
    &&& b.transactions.len() <= u64::MAX
    &&& forall|j: int| 0 <= j < b.transactions.len() ==> tx_sized(#[trigger] b.transactions[j])
}

proof fn lemma_cast_i32(x: i32)
    ensures
        (x as u32) as i32 == x,
{
    assert((x as u32) as i32 == x) by (bit_vector);
}

proof fn lemma_cast_i64(x: i64)
    ensures
        (x as u64) as i64 == x,
{
    assert((x as u64) as i64 == x) by (bit_vector);
}

proof fn lemma_dec_u64(x: u64, rest: Seq<u8>)
    ensures
        dec_u64(enc_u64(x) + rest) == Some((x, rest)),
{
    lemma_auto_spec_u64_to_from_le_bytes();
    let e = enc_u64(x);
    assert((e + rest).take(8) =~= e);
    assert((e + rest).skip(8) =~= rest);
}

proof fn lemma_dec_u32(x: u32, rest: Seq<u8>)
    ensures
        dec_u32(spec_u32_to_le_bytes(x) + rest) == Some((x, rest)),
{
    lemma_auto_spec_u32_to_from_le_bytes();
    let e = spec_u32_to_le_bytes(x);
    assert((e + rest).take(4) =~= e);
    assert((e + rest).skip(4) =~= rest);
}

proof fn lemma_dec_bytes(s: Seq<u8>, rest: Seq<u8>)
    requires
        s.len() <= u64::MAX,
    ensures
        dec_bytes(enc_bytes(s) + rest) == Some((s, rest)),
{
    let n = s.len() as u64;
    assert(enc_bytes(s) + rest =~= enc_u64(n) + (s + rest));
    lemma_dec_u64(n, s + rest);
    assert((s + rest).take(n as int) =~= s);
    assert((s + rest).skip(n as int) =~= rest);
}

proof fn lemma_dec_input(i: InputModel, rest: Seq<u8>)
    requires
        input_sized(i),
    ensures
        dec_input(enc_input(i) + rest) == Some((i, rest)),
{
    let v = spec_u32_to_le_bytes(i.vout as u32);
    let r3 = enc_bytes(i.pub_key) + rest;
    let r2 = enc_bytes(i.signature) + r3;
    let r1 = v + r2;
    assert(enc_input(i) + rest =~= enc_bytes(i.txid) + r1);
    lemma_dec_bytes(i.txid, r1);
    lemma_dec_u32(i.vout as u32, r2);
    lemma_dec_bytes(i.signature, r3);
    lemma_dec_bytes(i.pub_key, rest);
    lemma_cast_i32(i.vout);
}

proof fn lemma_dec_output(o: OutputModel, rest: Seq<u8>)
    requires
        output_sized(o),
    ensures
        dec_output(enc_output(o) + rest) == Some((o, rest)),
{
    let r1 = enc_bytes(o.pub_key_hash) + rest;
    assert(enc_output(o) + rest =~= enc_u64(o.value as u64) + r1);
    lemma_dec_u64(o.value as u64, r1);
    lemma_dec_bytes(o.pub_key_hash, rest);
    lemma_cast_i64(o.value);
}

proof fn lemma_dec_inputs(s: Seq<InputModel>, rest: Seq<u8>)
    requires
        forall|j: int| 0 <= j < s.len() ==> input_sized(#[trigger] s[j]),
    ensures
        dec_inputs(enc_inputs(s) + rest, s.len()) == Some((s, rest)),
    decreases s.len(),
{
    if s.len() > 0 {
        let init = s.drop_last();
        let r = enc_input(s.last()) + rest;
        assert(enc_inputs(s) + rest =~= enc_inputs(init) + r);
        lemma_dec_inputs(init, r);
        assert(input_sized(s[s.len() - 1]));
        lemma_dec_input(s.last(), rest);
        assert(init.push(s.last()) =~= s);
    } else {
        assert(enc_inputs(s) + rest =~= rest);
    }
}

proof fn lemma_dec_outputs(s: Seq<OutputModel>, rest: Seq<u8>)
    requires
        forall|j: int| 0 <= j < s.len() ==> output_sized(#[trigger] s[j]),
    ensures
        dec_outputs(enc_outputs(s) + rest, s.len()) == Some((s, rest)),
    decreases s.len(),
{
    if s.len() > 0 {
        let init = s.drop_last();
        let r = enc_output(s.last()) + rest;
        assert(enc_outputs(s) + rest =~= enc_outputs(init) + r);
        lemma_dec_outputs(init, r);
        assert(output_sized(s[s.len() - 1]));
        lemma_dec_output(s.last(), rest);
        assert(init.push(s.last()) =~= s);
    } else {
        assert(enc_outputs(s) + rest =~= rest);
    }
}

proof fn lemma_dec_bundle(b: Option<Seq<u8>>, rest: Seq<u8>)
    requires
        match b {
            Some(s) => s.len() <= u64::MAX,
            None => true,
        },
    ensures
        dec_bundle(enc_bundle(b) + rest) == Some((b, rest)),
{
    match b {
        Some(s) => {
            let d = enc_bundle(b) + rest;
            assert(d.skip(1) =~= enc_bytes(s) + rest);
            lemma_dec_bytes(s, rest);
        },
        None => {
            let d = enc_bundle(b) + rest;
            assert(d.skip(1) =~= rest);
        },
    }
}

proof fn lemma_dec_tx(t: TxModel, rest: Seq<u8>)
    requires
        tx_sized(t),
    ensures
        dec_tx(enc_tx(t) + rest) == Some((t, rest)),
{
    let r5 = enc_bundle(t.bundle) + rest;
    let r4 = enc_outputs(t.vout) + r5;
    let r3 = enc_u64(t.vout.len() as u64) + r4;
    let r2 = enc_inputs(t.vin) + r3;
    let r1 = enc_u64(t.vin.len() as u64) + r2;
    assert(enc_tx(t) + rest =~= enc_bytes(t.id) + r1);
    lemma_dec_bytes(t.id, r1);
    lemma_dec_u64(t.vin.len() as u64, r2);
    lemma_dec_inputs(t.vin, r3);
    lemma_dec_u64(t.vout.len() as u64, r4);
    lemma_dec_outputs(t.vout, r5);
    lemma_dec_bundle(t.bundle, rest);
}

proof fn lemma_dec_txs(s: Seq<TxModel>, rest: Seq<u8>)
    requires
        forall|j: int| 0 <= j < s.len() ==> tx_sized(#[trigger] s[j]),
    ensures
        dec_txs(enc_txs(s) + rest, s.len()) == Some((s, rest)),
    decreases s.len(),
{
    if s.len() > 0 {
        let init = s.drop_last();
        let r = enc_tx(s.last()) + rest;
        assert(enc_txs(s) + rest =~= enc_txs(init) + r);
        lemma_dec_txs(init, r);
        assert(tx_sized(s[s.len() - 1]));
        lemma_dec_tx(s.last(), rest);
        assert(init.push(s.last()) =~= s);
    } else {
        assert(enc_txs(s) + rest =~= rest);
    }
}

/// Decoding the encoding of a block gives the block back.
pub proof fn lemma_block_round_trip(b: BlockModel)
    requires
        block_sized(b),
    ensures
        decode_block(enc_block(b)) == Some(b),
{
    let rest = Seq::<u8>::empty();
    let r5 = enc_u64(b.nonce) + rest;
    let r4 = enc_bytes(b.hash) + r5;
    let r3 = enc_u64(b.timestamp as u64) + r4;
    let r2 = enc_txs(b.transactions) + r3;
    let r1 = enc_u64(b.transactions.len() as u64) + r2;
    assert(enc_block(b) =~= enc_bytes(b.prev_block_hash) + r1);
    lemma_dec_bytes(b.prev_block_hash, r1);
    lemma_dec_u64(b.transactions.len() as u64, r2);
    lemma_dec_txs(b.transactions, r3);
    lemma_dec_u64(b.timestamp as u64, r4);
    lemma_dec_bytes(b.hash, r5);
    lemma_dec_u64(b.nonce, rest);
    lemma_cast_i64(b.timestamp);
}


// ---------------------------------------------------------------- writing

fn put_raw(out: &mut Vec<u8>, s: &[u8])
    ensures
        final(out)@ == old(out)@ + s@,
{
    let mut i: usize = 0;
    while i < s.len()
        invariant
            i <= s@.len(),
            out@ == old(out)@ + s@.take(i as int),
        decreases s@.len() - i,
    {
        out.push(s[i]);
        i = i + 1;
        assert(out@ =~= old(out)@ + s@.take(i as int));
    }
    assert(s@.take(s@.len() as int) =~= s@);
}

fn put_u64(out: &mut Vec<u8>, x: u64)
    ensures
        final(out)@ == old(out)@ + enc_u64(x),
{
    let b = u64_to_le_bytes(x);
    put_raw(out, b.as_slice());
}

fn put_bytes(out: &mut Vec<u8>, s: &[u8])
    ensures
        final(out)@ == old(out)@ + enc_bytes(s@),
{
    put_u64(out, s.len() as u64);
    put_raw(out, s);
    assert(out@ =~= old(out)@ + enc_bytes(s@));
}

fn put_input(out: &mut Vec<u8>, i: &TXInput)
    ensures
        final(out)@ == old(out)@ + enc_input(i@),
{
    put_bytes(out, i.txid.as_slice());
    let v = u32_to_le_bytes(i.vout as u32);
    put_raw(out, v.as_slice());
    put_bytes(out, i.signature.as_slice());
    put_bytes(out, i.pub_key.as_slice());
    assert(out@ =~= old(out)@ + enc_input(i@));
}

fn put_output(out: &mut Vec<u8>, o: &TXOutput)
    ensures
        final(out)@ == old(out)@ + enc_output(o@),
{
    put_u64(out, o.value as u64);
    put_bytes(out, o.pub_key_hash.as_slice());
    assert(out@ =~= old(out)@ + enc_output(o@));
}

/// Appends the encoding of a transaction.
pub fn put_tx(out: &mut Vec<u8>, t: &Transaction)
    ensures
        final(out)@ == old(out)@ + enc_tx(t@),
{
    let ghost m = t@;
    put_bytes(out, t.id.as_slice());
    put_u64(out, t.vin.len() as u64);
    let ghost start = out@;
    let mut i: usize = 0;
    while i < t.vin.len()
        invariant
            i <= t.vin@.len(),
            m == t@,
            out@ == start + enc_inputs(m.vin.take(i as int)),
        decreases t.vin@.len() - i,
    {
        put_input(out, &t.vin[i]);
        assert(m.vin.take(i + 1).drop_last() =~= m.vin.take(i as int));
        i = i + 1;
        assert(out@ =~= start + enc_inputs(m.vin.take(i as int)));
    }
    assert(m.vin.take(m.vin.len() as int) =~= m.vin);
    put_u64(out, t.vout.len() as u64);
    let ghost start2 = out@;
    let mut k: usize = 0;
    while k < t.vout.len()
        invariant
            k <= t.vout@.len(),
            m == t@,
            out@ == start2 + enc_outputs(m.vout.take(k as int)),
        decreases t.vout@.len() - k,
    {
        put_output(out, &t.vout[k]);
        assert(m.vout.take(k + 1).drop_last() =~= m.vout.take(k as int));
        k = k + 1;
        assert(out@ =~= start2 + enc_outputs(m.vout.take(k as int)));
    }
    assert(m.vout.take(m.vout.len() as int) =~= m.vout);
    match &t.bundle {
        Some(b) => {
            out.push(1u8);
            put_bytes(out, b.as_slice());
        },
        None => {
            out.push(0u8);
        },
    }
    assert(out@ =~= old(out)@ + enc_tx(m));
}

/// Appends the encoding of a block.
pub fn put_block(out: &mut Vec<u8>, b: &Block)
    ensures
        final(out)@ == old(out)@ + enc_block(b@),
{
    let ghost m = b@;
    put_bytes(out, b.prev_block_hash.as_slice());
    put_u64(out, b.transactions.len() as u64);
    let ghost start = out@;
    let mut i: usize = 0;
    while i < b.transactions.len()
        invariant
            i <= b.transactions@.len(),
            m == b@,
            out@ == start + enc_txs(m.transactions.take(i as int)),
        decreases b.transactions@.len() - i,
    {
        put_tx(out, &b.transactions[i]);
        assert(m.transactions.take(i + 1).drop_last() =~= m.transactions.take(i as int));
        i = i + 1;
        assert(out@ =~= start + enc_txs(m.transactions.take(i as int)));
    }
    assert(m.transactions.take(m.transactions.len() as int) =~= m.transactions);
    put_u64(out, b.timestamp as u64);
    put_bytes(out, b.hash.as_slice());
    put_u64(out, b.nonce);
    assert(out@ =~= old(out)@ + enc_block(m));
}


// ---------------------------------------------------------------- reading

fn get_u64(d: &[u8], pos: usize) -> (r: Option<(u64, usize)>)
    requires
        pos <= d@.len(),
    ensures
        match dec_u64(d@.skip(pos as int)) {
            None => r is None,
            Some((v, rest)) => r is Some && r.unwrap().0 == v && r.unwrap().1 <= d@.len() && d@.skip(
                r.unwrap().1 as int,
            ) == rest,
        },
{
    if d.len() - pos < 8 {
        return None;
    }
    let w = slice_subrange(d, pos, pos + 8);
    let v = u64_from_le_bytes(w);
    assert(d@.skip(pos as int).take(8) =~= w@);
    assert(d@.skip(pos as int).skip(8) =~= d@.skip(pos + 8));
    Some((v, pos + 8))
}

fn get_u32(d: &[u8], pos: usize) -> (r: Option<(u32, usize)>)
    requires
        pos <= d@.len(),
    ensures
        match dec_u32(d@.skip(pos as int)) {
            None => r is None,
            Some((v, rest)) => r is Some && r.unwrap().0 == v && r.unwrap().1 <= d@.len() && d@.skip(
                r.unwrap().1 as int,
            ) == rest,
        },
{
    if d.len() - pos < 4 {
        return None;
    }
    let w = slice_subrange(d, pos, pos + 4);
    let v = u32_from_le_bytes(w);
    assert(d@.skip(pos as int).take(4) =~= w@);
    assert(d@.skip(pos as int).skip(4) =~= d@.skip(pos + 4));
    Some((v, pos + 4))
}

fn get_bytes(d: &[u8], pos: usize) -> (r: Option<(Vec<u8>, usize)>)
    requires
        pos <= d@.len(),
    ensures
        match dec_bytes(d@.skip(pos as int)) {
            None => r is None,
            Some((v, rest)) => r is Some && r.unwrap().0@ == v && r.unwrap().1 <= d@.len() && d@.skip(
                r.unwrap().1 as int,
            ) == rest,
        },
{
    let (n, p) = match get_u64(d, pos) {
        Some(x) => x,
        None => return None,
    };
    if n > (d.len() - p) as u64 {
        return None;
    }
    let end = p + n as usize;
    let v = slice_to_vec(slice_subrange(d, p, end));
    assert(d@.skip(p as int).take(n as int) =~= v@);
    assert(d@.skip(p as int).skip(n as int) =~= d@.skip(end as int));
    Some((v, end))
}

fn get_input(d: &[u8], pos: usize) -> (r: Option<(TXInput, usize)>)
    requires
        pos <= d@.len(),
    ensures
        match dec_input(d@.skip(pos as int)) {
            None => r is None,
            Some((v, rest)) => r is Some && r.unwrap().0@ == v && r.unwrap().1 <= d@.len() && d@.skip(
                r.unwrap().1 as int,
            ) == rest,
        },
{
    let (txid, pos1) = match get_bytes(d, pos) {
        Some(x) => x,
        None => return None,
    };
    let (v, pos2) = match get_u32(d, pos1) {
        Some(x) => x,
        None => return None,
    };
    let (signature, pos3) = match get_bytes(d, pos2) {
        Some(x) => x,
        None => return None,
    };
    let (pub_key, pos4) = match get_bytes(d, pos3) {
        Some(x) => x,
        None => return None,
    };
    Some((TXInput { txid, vout: v as i32, signature, pub_key }, pos4))
}

fn get_output(d: &[u8], pos: usize) -> (r: Option<(TXOutput, usize)>)
    requires
        pos <= d@.len(),
    ensures
        match dec_output(d@.skip(pos as int)) {
            None => r is None,
            Some((v, rest)) => r is Some && r.unwrap().0@ == v && r.unwrap().1 <= d@.len() && d@.skip(
                r.unwrap().1 as int,
            ) == rest,
        },
{
    let (v, pos1) = match get_u64(d, pos) {
        Some(x) => x,
        None => return None,
    };
    let (pub_key_hash, pos2) = match get_bytes(d, pos1) {
        Some(x) => x,
        None => return None,
    };
    Some((TXOutput { value: v as i64, pub_key_hash }, pos2))
}

fn get_bundle(d: &[u8], pos: usize) -> (r: Option<(Option<Vec<u8>>, usize)>)
    requires
        pos <= d@.len(),
    ensures
        match dec_bundle(d@.skip(pos as int)) {
            None => r is None,
            Some((v, rest)) => r is Some && crate::transaction::bundle_view(r.unwrap().0) == v
                && r.unwrap().1 <= d@.len() && d@.skip(r.unwrap().1 as int) == rest,
        },
{
    if pos >= d.len() {
        return None;
    }
    assert(d@.skip(pos as int)[0] == d@[pos as int]);
    assert(d@.skip(pos as int).skip(1) =~= d@.skip(pos + 1));
    if d[pos] == 0 {
        Some((None, pos + 1))
    } else if d[pos] == 1 {
        match get_bytes(d, pos + 1) {
            Some((b, p)) => Some((Some(b), p)),
            None => None,
        }
    } else {
        None
    }
}

fn get_tx(d: &[u8], pos: usize) -> (r: Option<(Transaction, usize)>)
    requires
        pos <= d@.len(),
    ensures
        match dec_tx(d@.skip(pos as int)) {
            None => r is None,
            Some((v, rest)) => r is Some && r.unwrap().0@ == v && r.unwrap().1 <= d@.len() && d@.skip(
                r.unwrap().1 as int,
            ) == rest,
        },
{
    let (id, pos1) = match get_bytes(d, pos) {
        Some(x) => x,
        None => return None,
    };
    let (ni, pos2) = match get_u64(d, pos1) {
        Some(x) => x,
        None => return None,
    };
    let mut vin: Vec<TXInput> = Vec::new();
    let mut p = pos2;
    let mut i: u64 = 0;
    while i < ni
        invariant
            p <= d@.len(),
            i <= ni,
            pos1 <= d@.len(),
            pos2 <= d@.len(),
            dec_bytes(d@.skip(pos as int)) == Some((id@, d@.skip(pos1 as int))),
            dec_u64(d@.skip(pos1 as int)) == Some((ni, d@.skip(pos2 as int))),
            dec_inputs(d@.skip(pos2 as int), i as nat) == Some(
                (vin@.map_values(|x: TXInput| x@), d@.skip(p as int)),
            ),
        decreases ni - i,
    {
        match get_input(d, p) {
            Some((x, q)) => {
                proof {
                    assert(vin@.push(x).map_values(|y: TXInput| y@) =~= vin@.map_values(
                        |y: TXInput| y@,
                    ).push(x@));
                }
                vin.push(x);
                p = q;
            },
            None => {
                assert(dec_inputs(d@.skip(pos2 as int), (i + 1) as nat) is None);
                assert(dec_inputs(d@.skip(pos2 as int), ni as nat) is None) by {
                    lemma_dec_inputs_none(d@.skip(pos2 as int), (i + 1) as nat, ni as nat);
                }
                return None;
            },
        }
        i = i + 1;
    }
    let (no, pos3) = match get_u64(d, p) {
        Some(x) => x,
        None => return None,
    };
    let mut vout: Vec<TXOutput> = Vec::new();
    let mut q = pos3;
    let mut k: u64 = 0;
    while k < no
        invariant
            q <= d@.len(),
            k <= no,
            pos3 <= d@.len(),
            dec_bytes(d@.skip(pos as int)) == Some((id@, d@.skip(pos1 as int))),
            dec_u64(d@.skip(pos1 as int)) == Some((ni, d@.skip(pos2 as int))),
            dec_inputs(d@.skip(pos2 as int), ni as nat) == Some(
                (vin@.map_values(|x: TXInput| x@), d@.skip(p as int)),
            ),
            dec_u64(d@.skip(p as int)) == Some((no, d@.skip(pos3 as int))),
            dec_outputs(d@.skip(pos3 as int), k as nat) == Some(
                (vout@.map_values(|x: TXOutput| x@), d@.skip(q as int)),
            ),
        decreases no - k,
    {
        match get_output(d, q) {
            Some((x, q2)) => {
                proof {
                    assert(vout@.push(x).map_values(|y: TXOutput| y@) =~= vout@.map_values(
                        |y: TXOutput| y@,
                    ).push(x@));
                }
                vout.push(x);
                q = q2;
            },
            None => {
                assert(dec_outputs(d@.skip(pos3 as int), (k + 1) as nat) is None);
                assert(dec_outputs(d@.skip(pos3 as int), no as nat) is None) by {
                    lemma_dec_outputs_none(d@.skip(pos3 as int), (k + 1) as nat, no as nat);
                }
                return None;
            },
        }
        k = k + 1;
    }
    let (bundle, pos4) = match get_bundle(d, q) {
        Some(x) => x,
        None => return None,
    };
    Some((Transaction { id, vin, vout, bundle }, pos4))
}

proof fn lemma_dec_inputs_none(d: Seq<u8>, a: nat, b: nat)
    requires
        a <= b,
        dec_inputs(d, a) is None,
    ensures
        dec_inputs(d, b) is None,
    decreases b - a,
{
    if a < b {
        lemma_dec_inputs_none(d, a, (b - 1) as nat);
    }
}

proof fn lemma_dec_outputs_none(d: Seq<u8>, a: nat, b: nat)
    requires
        a <= b,
        dec_outputs(d, a) is None,
    ensures
        dec_outputs(d, b) is None,
    decreases b - a,
{
    if a < b {
        lemma_dec_outputs_none(d, a, (b - 1) as nat);
    }
}

proof fn lemma_dec_txs_none(d: Seq<u8>, a: nat, b: nat)
    requires
        a <= b,
        dec_txs(d, a) is None,
    ensures
        dec_txs(d, b) is None,
    decreases b - a,
{
    if a < b {
        lemma_dec_txs_none(d, a, (b - 1) as nat);
    }
}

/// Reads a block from its stored form; fails on malformed bytes or bytes
/// left over.
pub fn get_block(d: &[u8]) -> (r: Option<Block>)
    ensures
        match decode_block(d@) {
            None => r is None,
            Some(b) => r is Some && r.unwrap()@ == b,
        },
{
    assert(d@.skip(0) =~= d@);
    let (prev_block_hash, pos1) = match get_bytes(d, 0) {
        Some(x) => x,
        None => return None,
    };
    let (nt, pos2) = match get_u64(d, pos1) {
        Some(x) => x,
        None => return None,
    };
    let mut transactions: Vec<Transaction> = Vec::new();
    let mut p = pos2;
    let mut i: u64 = 0;
    while i < nt
        invariant
            p <= d@.len(),
            i <= nt,
            pos1 <= d@.len(),
            pos2 <= d@.len(),
            dec_bytes(d@) == Some((prev_block_hash@, d@.skip(pos1 as int))),
            dec_u64(d@.skip(pos1 as int)) == Some((nt, d@.skip(pos2 as int))),
            dec_txs(d@.skip(pos2 as int), i as nat) == Some(
                (transactions@.map_values(|x: Transaction| x@), d@.skip(p as int)),
            ),
        decreases nt - i,
    {
        match get_tx(d, p) {
            Some((x, q)) => {
                proof {
                    assert(transactions@.push(x).map_values(|y: Transaction| y@) =~= transactions@.map_values(
                        |y: Transaction| y@,
                    ).push(x@));
                }
                transactions.push(x);
                p = q;
            },
            None => {
                assert(dec_txs(d@.skip(pos2 as int), (i + 1) as nat) is None);
                assert(dec_txs(d@.skip(pos2 as int), nt as nat) is None) by {
                    lemma_dec_txs_none(d@.skip(pos2 as int), (i + 1) as nat, nt as nat);
                }
                return None;
            },
        }
        i = i + 1;
    }
    let (ts, pos3) = match get_u64(d, p) {
        Some(x) => x,
        None => return None,
    };
    let (hash, pos4) = match get_bytes(d, pos3) {
        Some(x) => x,
        None => return None,
    };
    let (nonce, pos5) = match get_u64(d, pos4) {
        Some(x) => x,
        None => return None,
    };
    if pos5 != d.len() {
        return None;
    }
    #[verifier::truncate]
    let timestamp = ts as i64;
    Some(Block { prev_block_hash, transactions, timestamp, hash, nonce })
}

} // verus!
