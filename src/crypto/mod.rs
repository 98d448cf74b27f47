//! The transport ciphers: a common interface and the identity cipher.
use vstd::prelude::*;

pub mod bb;
pub mod pc;

verus! {

/// Why a cipher refused its input.
#[derive(Debug, Clone, Copy, PartialEq, Eq, Structural)]
pub enum CipherError {
    InvalidSize,
}

/// A cipher on one direction of a connection.
pub trait PSOCipher {
    /// Size of the frame prefix that must be decrypted to learn a frame's length.
    spec fn header_len(&self) -> usize;

    fn encrypt(&mut self, data: &Vec<u8>) -> Result<Vec<u8>, CipherError>;

    fn decrypt(&mut self, data: &Vec<u8>) -> Result<Vec<u8>, CipherError>;

    fn header_size(&self) -> (r: usize)
        ensures
            r == self.header_len(),
    ;

    /// Smallest unit the cipher works on; the header size unless a cipher
    /// says otherwise.
    fn block_size(&self) -> (r: usize)
        default_ensures
            r == self.header_len(),
    {
        self.header_size()
    }
}

/// The identity cipher, used before keys are agreed.
pub struct NullCipher {}

impl PSOCipher for NullCipher {
    open spec fn header_len(&self) -> usize {
        4
    }

    fn encrypt(&mut self, data: &Vec<u8>) -> (r: Result<Vec<u8>, CipherError>)
        ensures
            r matches Ok(out) && out@ == data@,
    {
        Ok(data.clone())
    }

    fn decrypt(&mut self, data: &Vec<u8>) -> (r: Result<Vec<u8>, CipherError>)
        ensures
            r matches Ok(out) && out@ == data@,
    {
        Ok(data.clone())
    }

    fn header_size(&self) -> (r: usize) {
        4
    }
}

} // verus!
