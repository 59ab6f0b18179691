//! Byte-level codec: a writer that appends to a buffer and a reader that
//! consumes a slice, both big-endian.

use vstd::prelude::*;

verus! {

/// Why bytes could not be read as a value.
#[derive(Clone, Copy, Debug, PartialEq, Eq, Structural)]
pub enum ReaderError {
    /// Fewer bytes are left than the value takes, or a length is out of
    /// its bounds.
    InvalidSize,
    /// A byte holds a value that the format does not know.
    InvalidValue,
}

/// The `n` lowest bytes of a number, highest first.
pub open spec fn be_bytes(v: nat, n: nat) -> Seq<u8>
    decreases n,
{
    if n == 0 {
        Seq::empty()
    } else {
        be_bytes(v / 256, (n - 1) as nat).push((v % 256) as u8)
    }
}

/// The number that bytes spell, highest byte first.
pub open spec fn from_be(bytes: Seq<u8>) -> nat
    decreases bytes.len(),
{
    if bytes.len() == 0 {
        0
    } else {
        from_be(bytes.drop_last()) * 256 + bytes.last() as nat
    }
}

/// 256 to the power of `n`.
pub open spec fn pow256(n: nat) -> nat
    decreases n,
{
    if n == 0 {
        1
    } else {
        256 * pow256((n - 1) as nat)
    }
}

/// Bytes spell a number below 256 to the power of their count.
pub proof fn lemma_from_be_bound(bytes: Seq<u8>)
    ensures
        from_be(bytes) < pow256(bytes.len()),
    decreases bytes.len(),
{
    if bytes.len() > 0 {
        lemma_from_be_bound(bytes.drop_last());
    }
}

/// A number below 256 to the power of `n` is the one that its `n` lowest
/// bytes spell.
pub proof fn lemma_from_be_of_be_bytes(v: nat, n: nat)
    requires
        v < pow256(n),
    ensures
        be_bytes(v, n).len() == n,
        from_be(be_bytes(v, n)) == v,
    decreases n,
{
    if n > 0 {
        lemma_from_be_of_be_bytes(v / 256, (n - 1) as nat);
        let bytes = be_bytes(v, n);
        assert(bytes.drop_last() =~= be_bytes(v / 256, (n - 1) as nat));
    }
}

/// The byte that stands for a truth value.
pub open spec fn bool_byte(v: bool) -> u8 {
    if v {
        1
    } else {
        0
    }
}

/// Collects the bytes of a value.
pub struct Writer {
    bytes: Vec<u8>,
}

impl View for Writer {
    type V = Seq<u8>;

    closed spec fn view(&self) -> Seq<u8> {
        self.bytes@
    }
}

impl Writer {
    /// A writer that holds no bytes yet.
    pub fn new() -> (r: Writer)
        ensures
            r@ == Seq::<u8>::empty(),
    {
        Writer { bytes: Vec::new() }
    }

    /// Appends one byte.
    pub fn write_u8(&mut self, value: u8)
        ensures
            final(self)@ == old(self)@.push(value),
    {
        self.bytes.push(value);
    }

    /// Appends 1 for `true` and 0 for `false`.
    pub fn write_bool(&mut self, value: bool)
        ensures
            final(self)@ == old(self)@.push(bool_byte(value)),
    {
        self.bytes.push(if value { 1u8 } else { 0u8 });
    }

    /// Appends the `n` lowest bytes of a number, highest first.
    fn write_be(&mut self, value: u64, n: usize)
        ensures
            final(self)@ == old(self)@ + be_bytes(value as nat, n as nat),
        decreases n,
    {
        if n > 0 {
            self.write_be(value / 256, n - 1);
            self.bytes.push((value % 256) as u8);
            assert(self@ =~= old(self)@ + be_bytes(value as nat, n as nat));
        } else {
            assert(self@ =~= old(self)@ + be_bytes(value as nat, n as nat));
        }
    }

    /// Appends the two bytes of a number, highest first.
    pub fn write_u16(&mut self, value: u16)
        ensures
            final(self)@ == old(self)@ + be_bytes(value as nat, 2),
    {
        self.write_be(value as u64, 2);
    }

    /// Appends the eight bytes of a number, highest first.
    pub fn write_u64(&mut self, value: &u64)
        ensures
            final(self)@ == old(self)@ + be_bytes(*value as nat, 8),
    {
        self.write_be(*value, 8);
    }

    /// Appends bytes as they are.
    pub fn write_bytes(&mut self, bytes: &[u8])
        ensures
            final(self)@ == old(self)@ + bytes@,
    {
        let mut i: usize = 0;
        while i < bytes.len()
            invariant
                i <= bytes.len(),
                self@ == old(self)@ + bytes@.subrange(0, i as int),
            decreases bytes.len() - i,
        {
            self.bytes.push(bytes[i]);
            assert(self@ =~= old(self)@ + bytes@.subrange(0, i + 1));
            i += 1;
        }
        assert(bytes@.subrange(0, i as int) =~= bytes@);
    }

    /// The number of bytes written so far.
    pub fn total_write(&self) -> (r: usize)
        ensures
            r == self@.len(),
    {
        self.bytes.len()
    }

    /// The bytes written.
    pub fn bytes(self) -> (r: Vec<u8>)
        ensures
            r@ == self@,
    {
        self.bytes
    }
}

/// The remaining bytes of a reader are those of its source from its
/// position on.
pub proof fn lemma_reader_remaining(reader: &Reader<'_>)
    ensures
        reader.position() <= reader.source().len() ==> reader.remaining() == reader.source().skip(
            reader.position() as int,
        ),
{
}

/// Takes the first `n` bytes: the bytes and what is left behind them, or
/// `InvalidSize` where fewer are there.
pub open spec fn take(input: Seq<u8>, n: nat) -> Result<(Seq<u8>, Seq<u8>), ReaderError> {
    if input.len() >= n {
        Ok((input.subrange(0, n as int), input.skip(n as int)))
    } else {
        Err(ReaderError::InvalidSize)
    }
}

/// Takes a number of `n` bytes, highest byte first.
pub open spec fn take_number(input: Seq<u8>, n: nat) -> Result<(nat, Seq<u8>), ReaderError> {
    match take(input, n) {
        Ok((bytes, rest)) => Ok((from_be(bytes), rest)),
        Err(e) => Err(e),
    }
}

/// Takes a truth value: one byte, 1 or 0. Any other byte is an
/// `InvalidValue`.
pub open spec fn take_bool(input: Seq<u8>) -> Result<(bool, Seq<u8>), ReaderError> {
    match take(input, 1) {
        Ok((bytes, rest)) => if bytes[0] == 0 {
            Ok((false, rest))
        } else if bytes[0] == 1 {
            Ok((true, rest))
        } else {
            Err(ReaderError::InvalidValue)
        },
        Err(e) => Err(e),
    }
}

/// Consumes a slice of bytes from its start.
pub struct Reader<'a> {
    bytes: &'a [u8],
    total: usize,
}

impl<'a> Reader<'a> {
    #[verifier::type_invariant]
    spec fn within_source(self) -> bool {
        self.total <= self.bytes@.len()
    }

    /// The bytes that the reader was made on.
    pub closed spec fn source(&self) -> Seq<u8> {
        self.bytes@
    }

    /// The bytes that are not read yet.
    pub closed spec fn remaining(&self) -> Seq<u8> {
        self.bytes@.skip(self.total as int)
    }

    /// The number of bytes read so far.
    pub closed spec fn position(&self) -> nat {
        self.total as nat
    }

    /// Whether `next` is this reader after it has read on: made on the same
    /// bytes, no further back, with `rest` left to read.
    pub open spec fn advanced(&self, next: &Reader<'a>, rest: Seq<u8>) -> bool {
        next.source() == self.source() && next.position() >= self.position() && next.remaining()
            == rest
    }

    /// Whether `next` is this reader after a read that failed: made on the
    /// same bytes, no further back.
    pub open spec fn failed(&self, next: &Reader<'a>) -> bool {
        next.source() == self.source() && next.position() >= self.position()
    }

    /// A reader at the start of the bytes.
    pub fn new(bytes: &'a [u8]) -> (r: Reader<'a>)
        ensures
            r.source() == bytes@,
            r.remaining() == bytes@,
    {
        assert(bytes@.skip(0) =~= bytes@);
        Reader { bytes, total: 0 }
    }

    /// The number of bytes that are not read yet.
    pub fn size(&self) -> (r: usize)
        ensures
            r == self.remaining().len(),
    {
        proof {
            use_type_invariant(self);
        }
        self.bytes.len() - self.total
    }

    /// The number of bytes read so far.
    pub fn total_read(&self) -> (r: usize)
        ensures
            r == self.position(),
    {
        self.total
    }

    /// Reads `n` bytes as they are.
    pub fn read_bytes(&mut self, n: usize) -> (r: Result<Vec<u8>, ReaderError>)
        ensures
            match take(old(self).remaining(), n as nat) {
                Ok((bytes, rest)) => r matches Ok(found) && found@ == bytes && old(self).advanced(
                    final(self),
                    rest,
                ),
                Err(e) => r matches Err(found) && found == e && *final(self) == *old(self),
            },
    {
        proof {
            use_type_invariant(&*self);
        }
        if n > self.size() {
            return Err(ReaderError::InvalidSize);
        }
        let start = self.total;
        assert(self.bytes.len() <= usize::MAX);
        let mut out: Vec<u8> = Vec::new();
        let mut i: usize = 0;
        assert(out@ =~= self.bytes@.subrange(start as int, start + i));
        while i < n
            invariant
                i <= n,
                start == self.total,
                start + n <= self.bytes@.len() <= usize::MAX,
                *self == *old(self),
                out@ == self.bytes@.subrange(start as int, start + i),
            decreases n - i,
        {
            out.push(self.bytes[start + i]);
            assert(out@ =~= self.bytes@.subrange(start as int, start + i + 1));
            i += 1;
        }
        self.total = start + n;
        assert(out@ =~= old(self).remaining().subrange(0, n as int));
        assert(self.remaining() =~= old(self).remaining().skip(n as int));
        Ok(out)
    }

    /// Reads one byte.
    pub fn read_u8(&mut self) -> (r: Result<u8, ReaderError>)
        ensures
            match take(old(self).remaining(), 1) {
                Ok((bytes, rest)) => r matches Ok(found) && found == bytes[0] && old(self).advanced(
                    final(self),
                    rest,
                ),
                Err(e) => r matches Err(found) && found == e && *final(self) == *old(self),
            },
    {
        proof {
            use_type_invariant(&*self);
        }
        if self.total < self.bytes.len() {
            let value = self.bytes[self.total];
            self.total = self.total + 1;
            assert(self.remaining() =~= old(self).remaining().skip(1));
            Ok(value)
        } else {
            Err(ReaderError::InvalidSize)
        }
    }

    /// Reads a truth value.
    pub fn read_bool(&mut self) -> (r: Result<bool, ReaderError>)
        ensures
            match take_bool(old(self).remaining()) {
                Ok((value, rest)) => r matches Ok(found) && found == value && old(self).advanced(
                    final(self),
                    rest,
                ),
                Err(e) => r matches Err(found) && found == e && old(self).failed(final(self)),
            },
    {
        match self.read_u8() {
            Ok(0) => Ok(false),
            Ok(1) => Ok(true),
            Ok(_) => Err(ReaderError::InvalidValue),
            Err(e) => Err(e),
        }
    }

    /// Reads a number of `n` bytes, highest byte first.
    fn read_be(&mut self, n: usize) -> (r: Result<u64, ReaderError>)
        requires
            n <= 8,
        ensures
            match take_number(old(self).remaining(), n as nat) {
                Ok((value, rest)) => r matches Ok(found) && found == value && old(self).advanced(
                    final(self),
                    rest,
                ),
                Err(e) => r matches Err(found) && found == e && *final(self) == *old(self),
            },
    {
        proof {
            use_type_invariant(&*self);
        }
        if n > self.size() {
            return Err(ReaderError::InvalidSize);
        }
        let start = self.total;
        assert(self.bytes.len() <= usize::MAX);
        let ghost input = self.remaining();
        let mut value: u64 = 0;
        let mut i: usize = 0;
        assert(input.subrange(0, 0) =~= Seq::<u8>::empty());
        while i < n
            invariant
                i <= n <= 8,
                start == self.total,
                start + n <= self.bytes@.len() <= usize::MAX,
                *self == *old(self),
                input == self.remaining(),
                value == from_be(input.subrange(0, i as int)),
            decreases n - i,
        {
            let byte = self.bytes[start + i];
            proof {
                let prefix = input.subrange(0, i + 1);
                assert(prefix.drop_last() =~= input.subrange(0, i as int));
                assert(prefix.last() == byte);
                lemma_from_be_bound(input.subrange(0, i as int));
                lemma_pow256_values();
                assert(pow256(i as nat) <= pow256(7)) by {
                    lemma_pow256_values();
                }
            }
            value = value * 256 + byte as u64;
            i += 1;
        }
        self.total = start + n;
        assert(self.remaining() =~= input.skip(n as int));
        Ok(value)
    }

    /// Reads a number of two bytes, highest byte first.
    pub fn read_u16(&mut self) -> (r: Result<u16, ReaderError>)
        ensures
            match take_number(old(self).remaining(), 2) {
                Ok((value, rest)) => r matches Ok(found) && found == value && old(self).advanced(
                    final(self),
                    rest,
                ),
                Err(e) => r matches Err(found) && found == e && *final(self) == *old(self),
            },
    {
        proof {
            if old(self).remaining().len() >= 2 {
                lemma_from_be_bound(old(self).remaining().subrange(0, 2));
                lemma_pow256_values();
            }
        }
        match self.read_be(2) {
            Ok(value) => Ok(value as u16),
            Err(e) => Err(e),
        }
    }

    /// Reads a number of eight bytes, highest byte first.
    pub fn read_u64(&mut self) -> (r: Result<u64, ReaderError>)
        ensures
            match take_number(old(self).remaining(), 8) {
                Ok((value, rest)) => r matches Ok(found) && found == value && old(self).advanced(
                    final(self),
                    rest,
                ),
                Err(e) => r matches Err(found) && found == e && *final(self) == *old(self),
            },
    {
        self.read_be(8)
    }
}

/// Bytes that stand before others are taken off whole.
pub proof fn lemma_take_front(front: Seq<u8>, rest: Seq<u8>)
    ensures
        take(front + rest, front.len()) == Ok::<(Seq<u8>, Seq<u8>), ReaderError>((front, rest)),
{
    let input = front + rest;
    assert(input.subrange(0, front.len() as int) =~= front);
    assert(input.skip(front.len() as int) =~= rest);
}

/// A number that was written in `n` bytes is read back from them.
pub proof fn lemma_take_number_front(v: nat, n: nat, rest: Seq<u8>)
    requires
        v < pow256(n),
    ensures
        take_number(be_bytes(v, n) + rest, n) == Ok::<(nat, Seq<u8>), ReaderError>((v, rest)),
{
    lemma_from_be_of_be_bytes(v, n);
    lemma_take_front(be_bytes(v, n), rest);
}

/// A truth value that was written is read back.
pub proof fn lemma_take_bool_front(v: bool, rest: Seq<u8>)
    ensures
        take_bool(seq![bool_byte(v)] + rest) == Ok::<(bool, Seq<u8>), ReaderError>((v, rest)),
{
    lemma_take_front(seq![bool_byte(v)], rest);
}

/// Whether a read gave what the format says: on success the value whose
/// model was parsed, with the reader moved on to what is left behind it; on
/// failure the same error, with the reader no further back.
pub open spec fn reads<'a, T: View>(
    r: Result<T, ReaderError>,
    expected: Result<(T::V, Seq<u8>), ReaderError>,
    before: Reader<'a>,
    after: Reader<'a>,
) -> bool {
    match expected {
        Ok((model, rest)) => r matches Ok(value) && value@ == model && before.advanced(
            &after,
            rest,
        ),
        Err(e) => r matches Err(found) && found == e && before.failed(&after),
    }
}

/// The powers of 256 up to the eighth.
pub proof fn lemma_pow256_values()
    ensures
        pow256(0) == 1,
        pow256(1) == 0x100,
        pow256(2) == 0x1_0000,
        pow256(3) == 0x100_0000,
        pow256(4) == 0x1_0000_0000,
        pow256(5) == 0x100_0000_0000,
        pow256(6) == 0x1_0000_0000_0000,
        pow256(7) == 0x100_0000_0000_0000,
        pow256(8) == 0x1_0000_0000_0000_0000,
{
    reveal_with_fuel(pow256, 9);
}

} // verus!
