//! The files embedded in an InstallShield installer.
use std::io::Read;

use flate2::bufread::ZlibDecoder;
use vstd::prelude::*;
use vstd::string::*;
use vstd::utf8::{decode_utf8, valid_utf8};

use super::read::{bytes_at, ReadError, Reader};

verus! {

/// Why an embedded file could not be read.
#[derive(Clone, Copy, Debug, Eq, PartialEq, Structural)]
pub enum FileError {
    Io(ReadError),
}

/// An embedded file.
#[derive(Debug, Clone)]
pub struct File {
    pub name: String,
    pub encoded_flags: u32,
    pub size: u32,
    pub offset: u64,
}

/// What a [`File`] says.
#[verifier::ext_equal]
pub struct FileView {
    pub name: Seq<char>,
    pub encoded_flags: u32,
    pub size: u32,
    pub offset: u64,
}

impl View for File {
    type V = FileView;

    open spec fn view(&self) -> FileView {
        FileView {
            name: self.name@,
            encoded_flags: self.encoded_flags,
            size: self.size,
            offset: self.offset,
        }
    }
}

/// The flag of a file whose bytes are encoded.
pub const FLAG_ENCODED: u32 = 0x2;

/// The flag of a file whose bytes are encoded chunk by chunk.
pub const FLAG_CHUNKED: u32 = 0x4;

/// The number of bytes of a chunk.
pub const CHUNK_SIZE: usize = 1024;

/// The byte that the `i`th byte of a name is mixed with to make a key.
pub open spec fn key_magic(i: int) -> u8 {
    if i % 4 == 0 {
        0x13
    } else if i % 4 == 1 {
        0x35
    } else if i % 4 == 2 {
        0x86
    } else {
        0x07
    }
}

/// The key of a file: the bytes of its name, mixed with four bytes in turn.
pub open spec fn file_key(name: Seq<u8>) -> Seq<u8> {
    Seq::new(name.len(), |i: int| name[i] ^ key_magic(i))
}

/// A byte with its halves swapped, mixed with a byte of the key and turned over.
pub open spec fn decoded_byte(byte: u8, key: u8) -> u8 {
    !(key ^ ((byte << 4) | (byte >> 4)))
}

/// The bytes behind the encoding, the key repeated from `key_offset` on.
pub open spec fn decoded_bytes(data: Seq<u8>, key: Seq<u8>, key_offset: int) -> Seq<u8> {
    Seq::new(
        data.len(),
        |i: int| decoded_byte(data[i], key[(key_offset + i) % (key.len() as int)]),
    )
}

/// The bytes behind the encoding, the key started anew with each chunk.
pub open spec fn decoded_chunks(data: Seq<u8>, key: Seq<u8>) -> Seq<u8> {
    Seq::new(
        data.len(),
        |i: int| decoded_byte(data[i], key[(i % (CHUNK_SIZE as int)) % (key.len() as int)]),
    )
}

/// Decodes `data` from `from` up to `to`, the key repeated from `key_offset` on.
pub fn decode_slice(data: &mut Vec<u8>, from: usize, to: usize, key: &[u8], key_offset: usize)
    requires
        from <= to <= old(data).len(),
        from < to ==> key@.len() > 0,
        key_offset + (to - from) <= usize::MAX,
    ensures
        final(data)@ == old(data)@.subrange(0, from as int) + decoded_bytes(
            old(data)@.subrange(from as int, to as int),
            key@,
            key_offset as int,
        ) + old(data)@.subrange(to as int, old(data)@.len() as int),
{
    let count: usize = to - from;
    let mut i: usize = 0;
    while i < count
        invariant
            count == to - from,
            i <= count,
            from <= to <= data.len(),
            data@.len() == old(data)@.len(),
            count > 0 ==> key@.len() > 0,
            key_offset + count <= usize::MAX,
            forall|k: int| #![auto] 0 <= k < from ==> data@[k] == old(data)@[k],
            forall|k: int|
                0 <= k < i ==> #[trigger] data@[from + k] == decoded_byte(
                    old(data)@[from + k],
                    key@[(key_offset + k) % (key@.len() as int)],
                ),
            forall|k: int| #![auto] from + i <= k < data.len() ==> data@[k] == old(data)@[k],
        decreases count - i,
    {
        let byte: u8 = data[from + i];
        let k: u8 = key[(key_offset + i) % key.len()];
        data.set(from + i, !(k ^ ((byte << 4) | (byte >> 4))));
        i += 1;
    }
    proof {
        let want = old(data)@.subrange(0, from as int) + decoded_bytes(
            old(data)@.subrange(from as int, to as int),
            key@,
            key_offset as int,
        ) + old(data)@.subrange(to as int, old(data)@.len() as int);
        assert forall|k: int| 0 <= k < data@.len() implies data@[k] == want[k] by {
            if from <= k < to {
                assert(data@[from + (k - from)] == data@[k]);
            }
        }
        assert(data@ =~= want);
    }
}

/// Decodes `data`, the key started anew with each chunk.
fn decode_chunks(data: &mut Vec<u8>, key: &[u8])
    requires
        key@.len() > 0,
    ensures
        final(data)@ == decoded_chunks(old(data)@, key@),
{
    let total: usize = data.len();
    let mut start: usize = 0;
    let ghost all = decoded_chunks(old(data)@, key@);
    assert(data@ =~= all.take(0) + old(data)@.skip(0));
    while start < total
        invariant
            start <= total == data@.len() == old(data)@.len(),
            key@.len() > 0,
            all == decoded_chunks(old(data)@, key@),
            start % CHUNK_SIZE == 0 || start == total,
            data@ == all.take(start as int) + old(data)@.skip(start as int),
        decreases total - start,
    {
        let end: usize = if total - start < CHUNK_SIZE {
            total
        } else {
            start + CHUNK_SIZE
        };
        let ghost before = data@;
        decode_slice(data, start, end, key, 0);
        proof {
            let want = all.take(end as int) + old(data)@.skip(end as int);
            assert forall|k: int| 0 <= k < total implies data@[k] == want[k] by {
                if start <= k < end {
                    assert(k % (CHUNK_SIZE as int) == k - start);
                }
            }
            assert(data@ =~= want);
        }
        start = end;
    }
    assert(data@ =~= all);
}

/// What a zlib stream holds, where it is one from start to end.
pub uninterp spec fn inflated(data: Seq<u8>) -> Option<Seq<u8>>;

/// `flate2::bufread::ZlibDecoder`, read to the end: what it gives, or that it fails, depends on
/// the bytes alone.
#[verifier::external_body]
fn inflate(data: &[u8]) -> (r: Option<Vec<u8>>)
    ensures
        inflated(data@) == match r {
            Some(bytes) => Some(bytes@),
            None => None::<Seq<u8>>,
        },
{
    let mut out = Vec::new();
    ZlibDecoder::new(data).read_to_end(&mut out).ok().map(|_| out)
}

/// What is left of the bytes of a file when its encoding is taken off. Nothing is, where the name
/// gives no key.
pub open spec fn decoded_contents(file: FileView, raw: Seq<u8>) -> Option<Seq<u8>> {
    let key = file_key(vstd::utf8::encode_utf8(file.name));
    if file.encoded_flags & FLAG_CHUNKED == 0 && file.encoded_flags & FLAG_ENCODED == 0 {
        Some(raw)
    } else if key.len() == 0 {
        None
    } else if file.encoded_flags & FLAG_CHUNKED != 0 {
        Some(decoded_chunks(raw, key))
    } else {
        Some(decoded_bytes(raw, key, 0))
    }
}

/// What a file holds, given what its decoded bytes hold as a zlib stream.
pub open spec fn file_contents(
    file: FileView,
    raw: Seq<u8>,
    stream: spec_fn(Seq<u8>) -> Option<Seq<u8>>,
) -> Option<Seq<u8>> {
    match decoded_contents(file, raw) {
        Some(decoded) if file.encoded_flags & FLAG_CHUNKED == 0 && file.encoded_flags & FLAG_ENCODED
            == 0 => Some(decoded),
        Some(decoded) => match stream(decoded) {
            Some(contents) => Some(contents),
            None => Some(decoded),
        },
        None => None,
    }
}

/// What a file embedded in `data` holds.
pub open spec fn embedded_contents(file: FileView, data: Seq<u8>) -> Result<
    Option<Seq<u8>>,
    FileError,
> {
    match bytes_at(data, file.offset as int, file.size as int) {
        Ok((raw, _)) => Ok(file_contents(file, raw, |bytes: Seq<u8>| inflated(bytes))),
        Err(error) => Err(FileError::Io(error)),
    }
}

/// How a text is written down as bytes.
#[derive(Clone, Copy, Debug, Eq, PartialEq, Structural)]
pub enum Charset {
    Utf8,
    Utf16Le,
    Utf16Be,
}

/// The charset that a byte order mark tells of, and the number of its bytes.
pub open spec fn marked_charset(data: Seq<u8>) -> Option<(Charset, usize)> {
    if seq![0xEFu8, 0xBBu8, 0xBFu8].is_prefix_of(data) {
        Some((Charset::Utf8, 3))
    } else if seq![0xFFu8, 0xFEu8].is_prefix_of(data) {
        Some((Charset::Utf16Le, 2))
    } else if seq![0xFEu8, 0xFFu8].is_prefix_of(data) {
        Some((Charset::Utf16Be, 2))
    } else {
        None
    }
}

/// The charset that a byte order mark tells of, and the number of its bytes.
pub fn for_bom(data: &[u8]) -> (r: Option<(Charset, usize)>)
    ensures
        r == marked_charset(data@),
{
    let n: usize = data.len();
    proof {
        let three = data@.subrange(0, 3);
        let two = data@.subrange(0, 2);
        if n >= 3 {
            assert(data[0] == 0xEF && data[1] == 0xBB && data[2] == 0xBF ==> three =~= seq![
                0xEFu8,
                0xBBu8,
                0xBFu8,
            ]);
            assert(three[0] == data[0] && three[1] == data[1] && three[2] == data[2]);
        }
        if n >= 2 {
            assert(data[0] == 0xFF && data[1] == 0xFE ==> two =~= seq![0xFFu8, 0xFEu8]);
            assert(data[0] == 0xFE && data[1] == 0xFF ==> two =~= seq![0xFEu8, 0xFFu8]);
            assert(two[0] == data[0] && two[1] == data[1]);
        }
    }
    if n >= 3 && data[0] == 0xEF && data[1] == 0xBB && data[2] == 0xBF {
        Some((Charset::Utf8, 3))
    } else if n >= 2 && data[0] == 0xFF && data[1] == 0xFE {
        Some((Charset::Utf16Le, 2))
    } else if n >= 2 && data[0] == 0xFE && data[1] == 0xFF {
        Some((Charset::Utf16Be, 2))
    } else {
        None
    }
}

/// The text that bytes stand for in a charset.
pub uninterp spec fn charset_text(charset: Charset, data: Seq<u8>) -> Seq<char>;

/// `encoding_rs::Encoding::decode`, with the encoding of the charset: the text depends on the
/// bytes and the encoding alone.
#[verifier::external_body]
pub(crate) fn decode(charset: Charset, data: &[u8]) -> (r: String)
    ensures
        r@ == charset_text(charset, data@),
{
    let encoding = match charset {
        Charset::Utf8 => encoding_rs::UTF_8,
        Charset::Utf16Le => encoding_rs::UTF_16LE,
        Charset::Utf16Be => encoding_rs::UTF_16BE,
    };
    encoding.decode(data).0.into_owned()
}

/// `std::str::from_utf8` succeeds on valid UTF-8, and gives the text that it stands for.
#[verifier::external_body]
fn utf8_text(data: &[u8]) -> (r: Option<String>)
    ensures
        r is Some <==> valid_utf8(data@),
        r matches Some(text) ==> text@ == decode_utf8(data@),
{
    std::str::from_utf8(data).ok().map(String::from)
}

/// The text of a file: a byte order mark decides; without one it is UTF-8, or else UTF-16.
pub open spec fn text_of(data: Seq<u8>) -> Seq<char> {
    match marked_charset(data) {
        Some((charset, mark)) => charset_text(charset, data.skip(mark as int)),
        None => if valid_utf8(data) {
            decode_utf8(data)
        } else {
            charset_text(Charset::Utf16Le, data)
        },
    }
}

/// The text of a file.
pub fn decode_text(data: &Vec<u8>) -> (r: String)
    ensures
        r@ == text_of(data@),
{
    match for_bom(data.as_slice()) {
        Some((charset, mark)) => {
            let rest = vstd::slice::slice_subrange(data.as_slice(), mark, data.len());
            assert(rest@ =~= data@.skip(mark as int));
            decode(charset, rest)
        },
        None => match utf8_text(data.as_slice()) {
            Some(text) => text,
            None => decode(Charset::Utf16Le, data.as_slice()),
        },
    }
}

impl File {
    /// The key of the file.
    fn key(&self) -> (r: Vec<u8>)
        ensures
            r@ == file_key(vstd::utf8::encode_utf8(self.name@)),
    {
        let name = self.name.as_str().as_bytes();
        let mut key: Vec<u8> = Vec::new();
        let mut i: usize = 0;
        while i < name.len()
            invariant
                i <= name.len(),
                key@ == file_key(name@).take(i as int),
            decreases name.len() - i,
        {
            let magic: u8 = match i % 4 {
                0 => 0x13,
                1 => 0x35,
                2 => 0x86,
                _ => 0x07,
            };
            key.push(name[i] ^ magic);
            i += 1;
            assert(key@ =~= file_key(name@).take(i as int));
        }
        assert(file_key(name@).take(i as int) =~= file_key(name@));
        key
    }

    /// Whether the bytes of the file are encoded.
    fn is_encoded(&self) -> (r: bool)
        ensures
            r == !(self.encoded_flags & FLAG_CHUNKED == 0 && self.encoded_flags & FLAG_ENCODED == 0),
    {
        self.encoded_flags & FLAG_CHUNKED != 0 || self.encoded_flags & FLAG_ENCODED != 0
    }

    /// Takes the encoding off the bytes of the file.
    pub fn decode_contents(&self, raw: Vec<u8>) -> (r: Option<Vec<u8>>)
        ensures
            decoded_contents(self@, raw@) == match r {
                Some(decoded) => Some(decoded@),
                None => None::<Seq<u8>>,
            },
    {
        if !self.is_encoded() {
            return Some(raw);
        }
        let key = self.key();
        if key.len() == 0 {
            return None;
        }
        let mut data = raw;
        if self.encoded_flags & FLAG_CHUNKED != 0 {
            decode_chunks(&mut data, key.as_slice());
        } else {
            let end: usize = data.len();
            decode_slice(&mut data, 0, end, key.as_slice(), 0);
            assert(data@ =~= decoded_bytes(raw@, key@, 0)) by {
                assert(raw@.subrange(0, end as int) =~= raw@);
            }
        }
        Some(data)
    }

    /// What the file holds.
    pub fn read<'a>(&self, reader: &mut Reader<'a>) -> (r: Result<Option<Vec<u8>>, FileError>)
        ensures
            final(reader).data@ == old(reader).data@,
            embedded_contents(self@, old(reader).data@) == match r {
                Ok(Some(contents)) => Ok::<Option<Seq<u8>>, FileError>(Some(contents@)),
                Ok(None) => Ok(None),
                Err(error) => Err(error),
            },
    {
        reader.pos = self.offset;
        let raw = match reader.read_exact(self.size as usize) {
            Ok(raw) => raw,
            Err(error) => {
                return Err(FileError::Io(error));
            },
        };
        let encoded = self.is_encoded();
        match self.decode_contents(raw) {
            Some(decoded) => if !encoded {
                Ok(Some(decoded))
            } else {
                match inflate(decoded.as_slice()) {
                    Some(contents) => Ok(Some(contents)),
                    None => Ok(Some(decoded)),
                }
            },
            None => Ok(None),
        }
    }

    /// The text of the file.
    pub fn read_text<'a>(&self, reader: &mut Reader<'a>) -> (r: Result<Option<String>, FileError>)
        ensures
            final(reader).data@ == old(reader).data@,
            match r {
                Ok(Some(text)) => embedded_contents(self@, old(reader).data@) matches Ok(
                    Some(contents),
                ) && text@ == text_of(contents),
                Ok(None) => embedded_contents(self@, old(reader).data@) == Ok::<_, FileError>(
                    None::<Seq<u8>>,
                ),
                Err(error) => embedded_contents(self@, old(reader).data@) == Err::<
                    Option<Seq<u8>>,
                    _,
                >(error),
            },
    {
        match self.read(reader)? {
            Some(contents) => Ok(Some(decode_text(&contents))),
            None => Ok(None),
        }
    }
}

/// The byte that decodes to `byte`.
pub open spec fn encoded_byte(byte: u8, key: u8) -> u8 {
    ((!byte ^ key) << 4) | ((!byte ^ key) >> 4)
}

/// Every byte has one encoding under a key, and decoding brings it back.
pub proof fn law_decoded_byte(byte: u8, key: u8)
    ensures
        decoded_byte(encoded_byte(byte, key), key) == byte,
        encoded_byte(decoded_byte(byte, key), key) == byte,
{
    let x = !byte ^ key;
    assert(!(key ^ ((((x << 4) | (x >> 4)) << 4) | (((x << 4) | (x >> 4)) >> 4))) == byte)
        by (bit_vector)
        requires
            x == !byte ^ key,
    ;
    let y = !(key ^ ((byte << 4) | (byte >> 4)));
    assert(((!y ^ key) << 4) | ((!y ^ key) >> 4) == byte) by (bit_vector)
        requires
            y == !(key ^ ((byte << 4) | (byte >> 4))),
    ;
}

/// Decoding keeps the number of bytes, and no two files of one name decode to the same bytes.
pub proof fn law_decoded_contents(file: FileView, a: Seq<u8>, b: Seq<u8>)
    ensures
        decoded_contents(file, a) matches Some(decoded) ==> decoded.len() == a.len(),
        decoded_contents(file, a) is Some && decoded_contents(file, a) == decoded_contents(file, b)
            ==> a == b,
{
    let key = file_key(vstd::utf8::encode_utf8(file.name));
    if decoded_contents(file, a) is Some && decoded_contents(file, a) == decoded_contents(file, b) {
        let x = decoded_contents(file, a).unwrap();
        let y = decoded_contents(file, b).unwrap();
        assert(x == y && x.len() == a.len() && y.len() == b.len());
        assert forall|i: int| 0 <= i < a.len() implies a[i] == b[i] by {
            assert(x[i] == y[i]);
            let k = if file.encoded_flags & FLAG_CHUNKED != 0 {
                key[(i % (CHUNK_SIZE as int)) % (key.len() as int)]
            } else {
                key[(0 + i) % (key.len() as int)]
            };
            if file.encoded_flags & FLAG_CHUNKED != 0 || file.encoded_flags & FLAG_ENCODED != 0 {
                assert(x[i] == decoded_byte(a[i], k));
                assert(y[i] == decoded_byte(b[i], k));
                law_decoded_byte(a[i], k);
                law_decoded_byte(b[i], k);
            }
        }
        assert(a =~= b);
    }
}

} // verus!
