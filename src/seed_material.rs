use vstd::prelude::*;
use vstd::string::StringExecFns;

use crate::hexfmt::{encode_hex, hex_of};

verus! {

/// A fixed-size run of bytes.
#[derive(Clone, Copy, Debug)]
pub struct Blob<const N: usize> {
    pub bytes: [u8; N],
}

impl<const N: usize> Blob<N> {
    pub fn new(bytes: [u8; N]) -> (r: Self)
        ensures
            r.bytes == bytes,
    {
        Blob { bytes }
    }
}

/// The secret that a wallet derives its keys from: a BIP-39 phrase, or a raw 32-byte seed
/// from before BIP-39.
#[derive(Clone)]
pub enum SeedMaterial {
    Bip39Mnemonic(String),
    PreBIP39Seed(Blob<32>),
}

impl SeedMaterial {
    /// The variant name and its contents: the phrase in quotes, or the seed in hex.
    pub fn describe(&self) -> (r: String)
        ensures
            self matches SeedMaterial::Bip39Mnemonic(p) ==> r@ == "SeedMaterial::Bip39Mnemonic(\""@
                + p@ + "\")"@,
            self matches SeedMaterial::PreBIP39Seed(b) ==> r@ == "SeedMaterial::PreBIP39Seed("@
                + hex_of(b.bytes@) + ")"@,
    {
        match self {
            SeedMaterial::Bip39Mnemonic(phrase) => {
                "SeedMaterial::Bip39Mnemonic(\"".to_owned().concat(phrase.as_str()).concat("\")")
            },
            SeedMaterial::PreBIP39Seed(seed) => {
                let h = encode_hex(&seed.bytes);
                "SeedMaterial::PreBIP39Seed(".to_owned().concat(h.as_str()).concat(")")
            },
        }
    }
}

} // verus!
