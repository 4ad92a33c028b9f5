//! A small proof-of-work ledger: blocks sealed by a hash puzzle, UTXO
//! transactions authorised by secp256k1 signatures, and the queries that
//! replay the chain to find what an address may spend.
pub mod error;
pub mod crypto;
pub mod encoding;
pub mod transaction;
pub mod block;
pub mod codec;
pub mod pow;
pub mod blockchain;
pub mod wallet;
pub mod coin;
pub mod bundle;

pub use block::{deserialize_block, Block};
pub use blockchain::{Blockchain, BlockchainIterator, OutPoint, StoredBlock, UnspentOutput};
pub use bundle::{Action, Bundle};
pub use coin::{create_proof, generate_random_bytes, mint, verify_mint, Coin, InstanceX, MintTransaction, PourTransaction, TXMint, TXPour, WitnessA};
pub use crypto::hash_pub_key;
pub use error::LedgerError;
pub use pow::ProofOfWork;
pub use transaction::{address_to_pub_key_hash, new_coinbase_tx, new_utxo_transaction, TXInput, TXOutput, Transaction};
pub use wallet::{address_of_pub_key, checksum, validate_address, Note, Wallet, Wallets};
