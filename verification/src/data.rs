use vstd::prelude::*;

verus! {

/// Whether a file is to be encrypted or decrypted.
#[derive(PartialEq, Eq, Structural, Clone, Copy, Debug)]
pub enum EncryptType {
    Encryption,
    Decryption,
}

/// The cipher that processes a file.
#[derive(PartialEq, Eq, Structural, Clone, Copy, Debug)]
pub enum EncryptAlgorithm {
    Chacha20Poly1305,
    Des,
}

impl Default for EncryptType {
    /// Files are encrypted unless the user asks otherwise.
    fn default() -> (r: Self)
        ensures
            r == EncryptType::Encryption,
    {
        EncryptType::Encryption
    }
}

impl Default for EncryptAlgorithm {
    /// XChaCha20-Poly1305 is the cipher selected at start.
    fn default() -> (r: Self)
        ensures
            r == EncryptAlgorithm::Chacha20Poly1305,
    {
        EncryptAlgorithm::Chacha20Poly1305
    }
}

impl EncryptType {
    /// True for encryption, false for decryption.
    pub fn is_encrypt(&self) -> (r: bool)
        ensures
            r == (*self == EncryptType::Encryption),
    {
        match self {
            EncryptType::Encryption => true,
            EncryptType::Decryption => false,
        }
    }
}

} // verus!
