//! Distributed key generation bootstrap library.
//!
//! Drives a validator set through the two-round synchronous key generation
//! handshake of the `hbbft` engine and encodes the resulting `Part` and `Ack`
//! messages into a canonical, address-keyed JSON transcript suitable for
//! embedding into a genesis configuration.

pub mod bytes;
pub mod engine;
pub mod errors;
pub mod json;
pub mod keygen;
pub mod transcript;
pub mod validator;

pub use keygen::generate_keygens;
pub use transcript::key_sync_history_data;
pub use validator::enodes_to_pub_keys;
pub use validator::KeyPairWrapper;
