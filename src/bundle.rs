//! The printable form of a shielded-transfer bundle, as attached to a
//! transaction: every field hex-encoded.
use vstd::prelude::*;

verus! {

/// One action of a shielded bundle.
#[derive(Clone, Debug)]
pub struct Action {
    pub nullifier: String,
    pub rk: String,
    pub cmx: String,
    pub out_ciphertext: String,
    pub ephemeral_key: String,
    pub enc_ciphertext: String,
    pub cv: String,
    pub spend_auth_sig: String,
}

/// A shielded bundle: its actions, flags, value balance, anchor, proof and
/// binding signature.
#[derive(Clone, Debug, Default)]
pub struct Bundle {
    pub actions: Vec<Action>,
    pub flags: u8,
    pub value_balance: i64,
    pub anchor: String,
    pub proof: String,
    pub binding_sig: String,
}

} // verus!
