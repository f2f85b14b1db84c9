//! Reading values out of the bytes of a file.
use vstd::prelude::*;

verus! {

/// Why bytes could not be read.
#[derive(Clone, Copy, Debug, Eq, PartialEq, Structural)]
pub enum ReadError {
    /// The file ends before the last of them.
    UnexpectedEof,
    /// The place is farther than a file can reach.
    InvalidSeek,
}

/// The `count` bytes at `at`, and the place behind them. No bytes can be read anywhere.
pub open spec fn bytes_at(data: Seq<u8>, at: int, count: int) -> Result<(Seq<u8>, int), ReadError> {
    if count == 0 {
        Ok((Seq::empty(), at))
    } else if at + count <= data.len() {
        Ok((data.subrange(at, at + count), at + count))
    } else {
        Err(ReadError::UnexpectedEof)
    }
}

/// A number out of its bytes, the lowest first.
pub open spec fn little_endian(bytes: Seq<u8>) -> nat
    decreases bytes.len(),
{
    if bytes.len() == 0 {
        0
    } else {
        bytes[0] as nat + 256 * little_endian(bytes.drop_first())
    }
}

/// The number that the `count` bytes at `at` make up, and the place behind them.
pub open spec fn number_at(data: Seq<u8>, at: int, count: int) -> Result<(nat, int), ReadError> {
    match bytes_at(data, at, count) {
        Ok((bytes, next)) => Ok((little_endian(bytes), next)),
        Err(error) => Err(error),
    }
}

/// The number that four bytes make up fits in a `u32`.
pub proof fn lemma_number_bound(data: Seq<u8>, at: int)
    requires
        0 <= at,
    ensures
        number_at(data, at, 4) matches Ok((number, next)) ==> number <= u32::MAX,
{
    if at + 4 <= data.len() {
        let bytes = data.subrange(at, at + 4);
        reveal_with_fuel(little_endian, 5);
        assert(bytes.drop_first().drop_first().drop_first().drop_first().len() == 0);
    }
}

/// The place `count` bytes behind `at`.
pub open spec fn place_after(at: int, count: int) -> Result<int, ReadError> {
    if at + count <= u64::MAX {
        Ok(at + count)
    } else {
        Err(ReadError::InvalidSeek)
    }
}

/// The bytes before the first zero at or behind `at`, and the place behind that zero.
pub open spec fn zero_ended_at(data: Seq<u8>, at: int) -> Result<(Seq<u8>, int), ReadError>
    decreases data.len() - at,
{
    if 0 <= at < data.len() {
        if data[at] == 0 {
            Ok((Seq::empty(), at + 1))
        } else {
            match zero_ended_at(data, at + 1) {
                Ok((bytes, next)) => Ok((seq![data[at]] + bytes, next)),
                Err(error) => Err(error),
            }
        }
    } else {
        Err(ReadError::UnexpectedEof)
    }
}

/// The bytes before the first pair of zeros, counted from `at` in pairs, and the place behind it.
pub open spec fn zero_pair_ended_at(data: Seq<u8>, at: int) -> Result<(Seq<u8>, int), ReadError>
    decreases data.len() - at,
{
    if 0 <= at && at + 2 <= data.len() {
        if data[at] == 0 && data[at + 1] == 0 {
            Ok((Seq::empty(), at + 2))
        } else {
            match zero_pair_ended_at(data, at + 2) {
                Ok((bytes, next)) => Ok((seq![data[at], data[at + 1]] + bytes, next)),
                Err(error) => Err(error),
            }
        }
    } else {
        Err(ReadError::UnexpectedEof)
    }
}

/// What is read lies between the two places.
pub proof fn lemma_zero_ended(data: Seq<u8>, at: int)
    requires
        0 <= at,
    ensures
        zero_ended_at(data, at) matches Ok((bytes, next)) ==> at < next <= data.len(),
        zero_ended_at(data, at) matches Err(error) ==> error == ReadError::UnexpectedEof,
        zero_pair_ended_at(data, at) matches Ok((bytes, next)) ==> at < next <= data.len(),
    decreases data.len() - at,
{
    if at < data.len() {
        lemma_zero_ended(data, at + 1);
        if at + 2 <= data.len() {
            lemma_zero_ended(data, at + 2);
        }
    }
}

/// A place in the bytes of a file.
pub struct Reader<'a> {
    pub data: &'a [u8],
    pub pos: u64,
}

impl<'a> Reader<'a> {
    /// A reader at a place.
    pub fn new(data: &'a [u8], pos: u64) -> (r: Reader<'a>)
        ensures
            r.data@ == data@,
            r.pos == pos,
    {
        Reader { data, pos }
    }

    /// Reads the next `count` bytes.
    pub fn read_exact(&mut self, count: usize) -> (r: Result<Vec<u8>, ReadError>)
        ensures
            final(self).data@ == old(self).data@,
            match r {
                Ok(bytes) => bytes_at(old(self).data@, old(self).pos as int, count as int) == Ok::<
                    _,
                    ReadError,
                >((bytes@, final(self).pos as int)),
                Err(error) => bytes_at(old(self).data@, old(self).pos as int, count as int) == Err::<
                    (Seq<u8>, int),
                    _,
                >(error),
            },
    {
        let mut bytes: Vec<u8> = Vec::new();
        let total: usize = self.data.len();
        if count == 0 {
            assert(bytes@ =~= Seq::empty());
            return Ok(bytes);
        }
        if self.pos > total as u64 || count > total - self.pos as usize {
            return Err(ReadError::UnexpectedEof);
        }
        let start: usize = self.pos as usize;
        let mut i: usize = 0;
        while i < count
            invariant
                i <= count,
                start + count <= self.data@.len(),
                self.data@.len() == self.data.len(),
                bytes@ == self.data@.subrange(start as int, start + i),
            decreases count - i,
        {
            bytes.push(self.data[start + i]);
            i += 1;
            assert(bytes@ =~= self.data@.subrange(start as int, start + i));
        }
        self.pos = self.pos + count as u64;
        Ok(bytes)
    }

    /// Reads the next two bytes as a number.
    pub fn read_u16(&mut self) -> (r: Result<u16, ReadError>)
        ensures
            final(self).data@ == old(self).data@,
            match r {
                Ok(value) => number_at(old(self).data@, old(self).pos as int, 2) == Ok::<
                    _,
                    ReadError,
                >((value as nat, final(self).pos as int)),
                Err(error) => number_at(old(self).data@, old(self).pos as int, 2) == Err::<
                    (nat, int),
                    _,
                >(error),
            },
    {
        let bytes = self.read_exact(2)?;
        proof {
            reveal_with_fuel(little_endian, 3);
        }
        Ok(bytes[0] as u16 + 256 * bytes[1] as u16)
    }

    /// Reads the next four bytes as a number.
    pub fn read_u32(&mut self) -> (r: Result<u32, ReadError>)
        ensures
            final(self).data@ == old(self).data@,
            match r {
                Ok(value) => number_at(old(self).data@, old(self).pos as int, 4) == Ok::<
                    _,
                    ReadError,
                >((value as nat, final(self).pos as int)),
                Err(error) => number_at(old(self).data@, old(self).pos as int, 4) == Err::<
                    (nat, int),
                    _,
                >(error),
            },
    {
        let bytes = self.read_exact(4)?;
        proof {
            reveal_with_fuel(little_endian, 5);
        }
        Ok(
            bytes[0] as u32 + 256 * (bytes[1] as u32 + 256 * (bytes[2] as u32 + 256 * bytes[3] as u32)),
        )
    }

    /// Passes over `count` bytes, which need not be there.
    pub fn skip(&mut self, count: u32) -> (r: Result<(), ReadError>)
        ensures
            final(self).data@ == old(self).data@,
            match r {
                Ok(()) => place_after(old(self).pos as int, count as int) == Ok::<_, ReadError>(
                    final(self).pos as int,
                ),
                Err(error) => place_after(old(self).pos as int, count as int) == Err::<int, _>(
                    error,
                ),
            },
    {
        match self.pos.checked_add(count as u64) {
            Some(pos) => {
                self.pos = pos;
                Ok(())
            },
            None => Err(ReadError::InvalidSeek),
        }
    }

    /// Reads the bytes up to the next zero, and the zero.
    pub fn read_zero_ended(&mut self) -> (r: Result<Vec<u8>, ReadError>)
        ensures
            final(self).data@ == old(self).data@,
            match r {
                Ok(bytes) => zero_ended_at(old(self).data@, old(self).pos as int) == Ok::<
                    _,
                    ReadError,
                >((bytes@, final(self).pos as int)),
                Err(error) => zero_ended_at(old(self).data@, old(self).pos as int) == Err::<
                    (Seq<u8>, int),
                    _,
                >(error),
            },
    {
        let mut bytes: Vec<u8> = Vec::new();
        loop
            invariant_except_break
                self.data@ == old(self).data@,
                match zero_ended_at(self.data@, self.pos as int) {
                    Ok((rest, next)) => zero_ended_at(old(self).data@, old(self).pos as int) == Ok::<
                        _,
                        ReadError,
                    >((bytes@ + rest, next)),
                    Err(error) => zero_ended_at(old(self).data@, old(self).pos as int) == Err::<
                        (Seq<u8>, int),
                        _,
                    >(error),
                },
            ensures
                self.data@ == old(self).data@,
                zero_ended_at(old(self).data@, old(self).pos as int) == Ok::<_, ReadError>(
                    (bytes@, self.pos as int),
                ),
            decreases self.data@.len() - self.pos,
        {
            let ghost before = bytes@;
            let byte: u8 = read_u8(self)?;
            if byte == 0 {
                assert(bytes@ + Seq::<u8>::empty() =~= bytes@);
                break;
            }
            bytes.push(byte);
            proof {
                if let Ok((rest, next)) = zero_ended_at(self.data@, self.pos as int) {
                    assert(before + (seq![byte] + rest) =~= bytes@ + rest);
                }
            }
        }
        Ok(bytes)
    }

    /// Reads the pairs of bytes up to the next pair of zeros, and that pair.
    pub fn read_zero_pair_ended(&mut self) -> (r: Result<Vec<u8>, ReadError>)
        ensures
            final(self).data@ == old(self).data@,
            match r {
                Ok(bytes) => zero_pair_ended_at(old(self).data@, old(self).pos as int) == Ok::<
                    _,
                    ReadError,
                >((bytes@, final(self).pos as int)),
                Err(error) => zero_pair_ended_at(old(self).data@, old(self).pos as int) == Err::<
                    (Seq<u8>, int),
                    _,
                >(error),
            },
    {
        let mut bytes: Vec<u8> = Vec::new();
        loop
            invariant_except_break
                self.data@ == old(self).data@,
                match zero_pair_ended_at(self.data@, self.pos as int) {
                    Ok((rest, next)) => zero_pair_ended_at(old(self).data@, old(self).pos as int)
                        == Ok::<_, ReadError>((bytes@ + rest, next)),
                    Err(error) => zero_pair_ended_at(old(self).data@, old(self).pos as int) == Err::<
                        (Seq<u8>, int),
                        _,
                    >(error),
                },
            ensures
                self.data@ == old(self).data@,
                zero_pair_ended_at(old(self).data@, old(self).pos as int) == Ok::<_, ReadError>(
                    (bytes@, self.pos as int),
                ),
            decreases self.data@.len() - self.pos,
        {
            let ghost before = bytes@;
            let pair = self.read_exact(2)?;
            if pair[0] == 0 && pair[1] == 0 {
                assert(bytes@ + Seq::<u8>::empty() =~= bytes@);
                break;
            }
            bytes.push(pair[0]);
            bytes.push(pair[1]);
            proof {
                if let Ok((rest, next)) = zero_pair_ended_at(self.data@, self.pos as int) {
                    assert(before + (seq![pair@[0], pair@[1]] + rest) =~= bytes@ + rest);
                }
            }
        }
        Ok(bytes)
    }
}

/// Reads the next byte.
pub fn read_u8<'a>(reader: &mut Reader<'a>) -> (r: Result<u8, ReadError>)
    ensures
        final(reader).data@ == old(reader).data@,
        match r {
            Ok(byte) => old(reader).pos < old(reader).data@.len() && byte == old(reader).data@[old(
                reader,
            ).pos as int] && final(reader).pos == old(reader).pos + 1,
            Err(error) => old(reader).pos >= old(reader).data@.len() && error
                == ReadError::UnexpectedEof,
        },
{
    let bytes = reader.read_exact(1)?;
    Ok(bytes[0])
}

} // verus!
