//! Fixed-size byte strings of the cryptographic layer: hashes, compressed
//! keys, commitments, handles and signatures. They are carried and
//! serialised here, never interpreted.

use crate::serializer::{take, Reader, ReaderError, Writer};
use vstd::prelude::*;

verus! {

pub const HASH_SIZE: usize = 32;

pub const RISTRETTO_COMPRESSED_SIZE: usize = 32;

pub const SIGNATURE_SIZE: usize = 64;

/// Reads 32 bytes into an array.
fn read_array(reader: &mut Reader) -> (r: Result<[u8; 32], ReaderError>)
    ensures
        match take(old(reader).remaining(), 32) {
            Ok((bytes, rest)) => r matches Ok(found) && found@ == bytes && old(reader).advanced(
                final(reader),
                rest,
            ),
            Err(e) => r matches Err(found) && found == e && *final(reader) == *old(reader),
        },
{
    match reader.read_bytes(32) {
        Ok(bytes) => {
            let mut out = [0u8;32];
            let mut i: usize = 0;
            while i < 32
                invariant
                    i <= 32,
                    bytes@.len() == 32,
                    forall|j: int| 0 <= j < i ==> out@[j] == bytes@[j],
                decreases 32 - i,
            {
                out[i] = bytes[i];
                i += 1;
            }
            assert(out@ =~= bytes@);
            Ok(out)
        },
        Err(e) => Err(e),
    }
}

/// A 32-byte digest.
#[derive(Clone, Debug)]
pub struct Hash([u8; 32]);

impl View for Hash {
    type V = Seq<u8>;

    closed spec fn view(&self) -> Seq<u8> {
        self.0@
    }
}

impl Hash {
    pub fn new(bytes: [u8; 32]) -> (r: Hash)
        ensures
            r@ == bytes@,
    {
        Hash(bytes)
    }

    pub fn as_bytes(&self) -> (r: &[u8; 32])
        ensures
            r@ == self@,
    {
        &self.0
    }

    /// Every digest takes 32 bytes.
    pub proof fn lemma_len(&self)
        ensures
            self@.len() == 32,
    {
    }

    pub fn write(&self, writer: &mut Writer)
        ensures
            final(writer)@ == old(writer)@ + self@,
    {
        writer.write_bytes(self.0.as_slice());
    }

    pub fn read(reader: &mut Reader) -> (r: Result<Hash, ReaderError>)
        ensures
            match take(old(reader).remaining(), 32) {
                Ok((bytes, rest)) => r matches Ok(found) && found@ == bytes && old(reader).advanced(
                    final(reader),
                    rest,
                ),
                Err(e) => r matches Err(found) && found == e && *final(reader) == *old(reader),
            },
    {
        match read_array(reader) {
            Ok(bytes) => Ok(Hash(bytes)),
            Err(e) => Err(e),
        }
    }

    pub fn size(&self) -> (r: usize)
        ensures
            r == self@.len(),
    {
        HASH_SIZE
    }
}

/// A compressed public key.
#[derive(Clone, Debug)]
pub struct CompressedPublicKey([u8; 32]);

impl View for CompressedPublicKey {
    type V = Seq<u8>;

    closed spec fn view(&self) -> Seq<u8> {
        self.0@
    }
}

impl CompressedPublicKey {
    pub fn new(bytes: [u8; 32]) -> (r: CompressedPublicKey)
        ensures
            r@ == bytes@,
    {
        CompressedPublicKey(bytes)
    }

    pub fn as_bytes(&self) -> (r: &[u8; 32])
        ensures
            r@ == self@,
    {
        &self.0
    }

    /// Every compressed key takes 32 bytes.
    pub proof fn lemma_len(&self)
        ensures
            self@.len() == 32,
    {
    }

    pub fn write(&self, writer: &mut Writer)
        ensures
            final(writer)@ == old(writer)@ + self@,
    {
        writer.write_bytes(self.0.as_slice());
    }

    pub fn read(reader: &mut Reader) -> (r: Result<CompressedPublicKey, ReaderError>)
        ensures
            match take(old(reader).remaining(), 32) {
                Ok((bytes, rest)) => r matches Ok(found) && found@ == bytes && old(reader).advanced(
                    final(reader),
                    rest,
                ),
                Err(e) => r matches Err(found) && found == e && *final(reader) == *old(reader),
            },
    {
        match read_array(reader) {
            Ok(bytes) => Ok(CompressedPublicKey(bytes)),
            Err(e) => Err(e),
        }
    }

    pub fn size(&self) -> (r: usize)
        ensures
            r == self@.len(),
    {
        RISTRETTO_COMPRESSED_SIZE
    }
}

/// A compressed commitment.
#[derive(Clone, Debug)]
pub struct CompressedCommitment([u8; 32]);

impl View for CompressedCommitment {
    type V = Seq<u8>;

    closed spec fn view(&self) -> Seq<u8> {
        self.0@
    }
}

impl CompressedCommitment {
    pub fn new(bytes: [u8; 32]) -> (r: CompressedCommitment)
        ensures
            r@ == bytes@,
    {
        CompressedCommitment(bytes)
    }

    pub fn as_bytes(&self) -> (r: &[u8; 32])
        ensures
            r@ == self@,
    {
        &self.0
    }

    /// Every compressed commitment takes 32 bytes.
    pub proof fn lemma_len(&self)
        ensures
            self@.len() == 32,
    {
    }

    pub fn write(&self, writer: &mut Writer)
        ensures
            final(writer)@ == old(writer)@ + self@,
    {
        writer.write_bytes(self.0.as_slice());
    }

    pub fn read(reader: &mut Reader) -> (r: Result<CompressedCommitment, ReaderError>)
        ensures
            match take(old(reader).remaining(), 32) {
                Ok((bytes, rest)) => r matches Ok(found) && found@ == bytes && old(reader).advanced(
                    final(reader),
                    rest,
                ),
                Err(e) => r matches Err(found) && found == e && *final(reader) == *old(reader),
            },
    {
        match read_array(reader) {
            Ok(bytes) => Ok(CompressedCommitment(bytes)),
            Err(e) => Err(e),
        }
    }

    pub fn size(&self) -> (r: usize)
        ensures
            r == self@.len(),
    {
        RISTRETTO_COMPRESSED_SIZE
    }
}

/// A compressed decryption handle.
#[derive(Clone, Debug)]
pub struct CompressedHandle([u8; 32]);

impl View for CompressedHandle {
    type V = Seq<u8>;

    closed spec fn view(&self) -> Seq<u8> {
        self.0@
    }
}

impl CompressedHandle {
    pub fn new(bytes: [u8; 32]) -> (r: CompressedHandle)
        ensures
            r@ == bytes@,
    {
        CompressedHandle(bytes)
    }

    pub fn as_bytes(&self) -> (r: &[u8; 32])
        ensures
            r@ == self@,
    {
        &self.0
    }

    /// Every compressed handle takes 32 bytes.
    pub proof fn lemma_len(&self)
        ensures
            self@.len() == 32,
    {
    }

    pub fn write(&self, writer: &mut Writer)
        ensures
            final(writer)@ == old(writer)@ + self@,
    {
        writer.write_bytes(self.0.as_slice());
    }

    pub fn read(reader: &mut Reader) -> (r: Result<CompressedHandle, ReaderError>)
        ensures
            match take(old(reader).remaining(), 32) {
                Ok((bytes, rest)) => r matches Ok(found) && found@ == bytes && old(reader).advanced(
                    final(reader),
                    rest,
                ),
                Err(e) => r matches Err(found) && found == e && *final(reader) == *old(reader),
            },
    {
        match read_array(reader) {
            Ok(bytes) => Ok(CompressedHandle(bytes)),
            Err(e) => Err(e),
        }
    }

    pub fn size(&self) -> (r: usize)
        ensures
            r == self@.len(),
    {
        RISTRETTO_COMPRESSED_SIZE
    }
}

/// A signature.
#[derive(Clone, Debug)]
pub struct Signature([u8; 64]);

impl View for Signature {
    type V = Seq<u8>;

    closed spec fn view(&self) -> Seq<u8> {
        self.0@
    }
}

impl Signature {
    pub fn new(bytes: [u8; 64]) -> (r: Signature)
        ensures
            r@ == bytes@,
    {
        Signature(bytes)
    }

    pub fn as_bytes(&self) -> (r: &[u8; 64])
        ensures
            r@ == self@,
    {
        &self.0
    }
}

} // verus!
