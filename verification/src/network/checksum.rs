//! The CRC-32 frame checksum (reflected polynomial `0xEDB88320`).

use vstd::prelude::*;

verus! {

/// One shift of the checksum register.
pub open spec fn crc_shift(register: u32) -> u32 {
    if register & 1 == 1 {
        (register >> 1) ^ 0xEDB88320u32
    } else {
        register >> 1
    }
}

/// `n` shifts of the checksum register.
pub open spec fn crc_shifts(register: u32, n: nat) -> u32
    decreases n,
{
    if n == 0 {
        register
    } else {
        crc_shifts(crc_shift(register), (n - 1) as nat)
    }
}

/// The register after one more byte: the byte is added in and shifted out.
pub open spec fn crc_byte(register: u32, byte: u8) -> u32 {
    crc_shifts(register ^ (byte as u32), 8)
}

/// The register after more bytes.
pub open spec fn crc_bytes(register: u32, bytes: Seq<u8>) -> u32
    decreases bytes.len(),
{
    if bytes.len() == 0 {
        register
    } else {
        crc_byte(crc_bytes(register, bytes.drop_last()), bytes.last())
    }
}

/// The checksum of a byte string.
pub open spec fn crc32(bytes: Seq<u8>) -> u32 {
    !crc_bytes(0xFFFFFFFF, bytes)
}

/// Feeding two byte strings in turn is feeding them joined.
pub proof fn crc_bytes_joined(register: u32, first: Seq<u8>, second: Seq<u8>)
    ensures
        crc_bytes(crc_bytes(register, first), second) == crc_bytes(register, first + second),
    decreases second.len(),
{
    if second.len() == 0 {
        assert(first + second =~= first);
    } else {
        crc_bytes_joined(register, first, second.drop_last());
        assert((first + second).drop_last() =~= first + second.drop_last());
    }
}

/// A checksum computation in progress.
pub struct Crc32 {
    register: u32,
    fed: Ghost<Seq<u8>>,
}

impl View for Crc32 {
    type V = Seq<u8>;

    closed spec fn view(&self) -> Seq<u8> {
        self.fed@
    }
}

impl Crc32 {
    #[verifier::type_invariant]
    spec fn consistent(&self) -> bool {
        self.register == crc_bytes(0xFFFFFFFF, self.fed@)
    }

    /// A computation that has seen nothing.
    pub fn new() -> (crc: Crc32)
        ensures
            crc@ == Seq::<u8>::empty(),
    {
        Crc32 { register: 0xFFFFFFFF, fed: Ghost(Seq::empty()) }
    }

    /// The computation after more bytes.
    pub fn chain(self, bytes: &[u8]) -> (crc: Crc32)
        ensures
            crc@ == self@ + bytes@,
    {
        proof {
            use_type_invariant(&self);
        }
        let start: u32 = self.register;
        let mut register: u32 = start;
        let mut i: usize = 0;
        assert(bytes@.take(0) =~= Seq::empty());
        while i < bytes.len()
            invariant
                i <= bytes@.len(),
                register == crc_bytes(start, bytes@.take(i as int)),
            decreases bytes@.len() - i,
        {
            assert(bytes@.take(i + 1).drop_last() =~= bytes@.take(i as int));
            let mut shifted: u32 = register ^ (bytes[i] as u32);
            let mut round: u32 = 0;
            while round < 8
                invariant
                    round <= 8,
                    crc_shifts(shifted, (8 - round) as nat) == crc_byte(register, bytes@[i as int]),
                decreases 8 - round,
            {
                if shifted & 1 == 1 {
                    shifted = (shifted >> 1) ^ 0xEDB88320u32;
                } else {
                    shifted = shifted >> 1;
                }
                round = round + 1;
            }
            register = shifted;
            i = i + 1;
        }
        proof {
            assert(bytes@.take(bytes@.len() as int) =~= bytes@);
            crc_bytes_joined(0xFFFFFFFF, self.fed@, bytes@);
        }
        Crc32 { register, fed: Ghost(self.fed@ + bytes@) }
    }

    /// The checksum of everything fed.
    pub fn finalize(self) -> (checksum: u32)
        ensures
            checksum == crc32(self@),
    {
        proof {
            use_type_invariant(&self);
        }
        !self.register
    }
}

} // verus!
