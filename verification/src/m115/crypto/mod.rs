//! Client-side cryptography of the 115 protocol.

pub mod rsa;

use vstd::prelude::*;
use rand::Rng;

verus! {

/// A 16-byte client key.
pub type Key = [u8; 16];

/// `rand`: `thread_rng().gen::<[u8; 16]>()`. The bytes are random; nothing
/// is stated of them.
#[verifier::external_body]
fn random_key() -> Key {
    rand::thread_rng().gen::<Key>()
}

/// A fresh random client key.
pub fn gen_key() -> Key {
    random_key()
}

} // verus!
