//! The overlay of an InstallShield installer: where its bytes are found, and what they stand for.
use vstd::prelude::*;
use vstd::utf8::*;

use crate::installshield::entries::{
    entries_at, entry_at, header_at, lossy_text, plain_entry_at, plain_name, script_entries_at,
    script_text_at, stream_entry_at, stream_name, until_zero, Header, InstallShieldError, Kind,
    ScriptEncoding,
};
use crate::installshield::file::{
    charset_text, decoded_bytes, decoded_contents, embedded_contents, inflated, marked_charset,
    text_of, Charset, FileError, FileView,
};
use crate::installshield::installer::{
    embedded_files, found_text, last_named, script_encoding, PeFacts,
};
use crate::installshield::read::{
    bytes_at, little_endian, number_at, place_after, zero_ended_at, zero_pair_ended_at, ReadError,
};
use crate::number::number_value;
use crate::search::{char_trimmed_back, char_trimmed_front};

verus! {

/// The bytes at a place are those that stand there, and none are read past the end of the file.
pub proof fn law_bytes_at(data: Seq<u8>, at: int, count: int)
    requires
        0 <= at,
        0 < count,
    ensures
        match bytes_at(data, at, count) {
            Ok((bytes, next)) => {
                &&& at + count <= data.len()
                &&& bytes.len() == count
                &&& forall|i: int| 0 <= i < count ==> #[trigger] bytes[i] == data[at + i]
                &&& next == at + count
            },
            Err(error) => at + count > data.len() && error == ReadError::UnexpectedEof,
        },
{
}

/// A number has its lowest byte first.
pub proof fn law_little_endian(a: u8, b: u8, c: u8, d: u8)
    ensures
        little_endian(seq![a, b]) == a + 256 * b,
        little_endian(seq![a, b, c, d]) == a + 256 * b + 65536 * c + 16777216 * d,
{
    reveal_with_fuel(little_endian, 5);
    assert(seq![a, b].drop_first() =~= seq![b]);
    assert(seq![b].drop_first() =~= Seq::<u8>::empty());
    assert(seq![a, b, c, d].drop_first() =~= seq![b, c, d]);
    assert(seq![b, c, d].drop_first() =~= seq![c, d]);
    assert(seq![c, d].drop_first() =~= seq![d]);
    assert(seq![d].drop_first() =~= Seq::<u8>::empty());
}

/// Whether bytes hold no zero.
pub open spec fn without_zero(bytes: Seq<u8>) -> bool {
    forall|i: int| 0 <= i < bytes.len() ==> #[trigger] bytes[i] != 0
}

/// The bytes before the first zero are found, and nothing where there is none.
pub proof fn law_until_zero(bytes: Seq<u8>, rest: Seq<u8>)
    requires
        without_zero(bytes),
    ensures
        until_zero(bytes + seq![0u8] + rest) == Some(bytes),
        until_zero(bytes) is None,
    decreases bytes.len(),
{
    let all = bytes + seq![0u8] + rest;
    if bytes.len() == 0 {
        assert(all[0] == 0);
        assert(bytes =~= Seq::<u8>::empty());
    } else {
        let shorter = bytes.drop_first();
        assert(without_zero(shorter)) by {
            assert forall|i: int| 0 <= i < shorter.len() implies #[trigger] shorter[i] != 0 by {
                assert(shorter[i] == bytes[i + 1]);
            }
        }
        law_until_zero(shorter, rest);
        assert(all.drop_first() =~= shorter + seq![0u8] + rest);
        assert(all[0] == bytes[0]);
        assert(seq![bytes[0]] + shorter =~= bytes);
    }
}

/// Bytes that a zero ends are read up to that zero, which is passed over; where none follows, the file ends
/// too early.
pub proof fn law_zero_ended(before: Seq<u8>, bytes: Seq<u8>, rest: Seq<u8>)
    requires
        without_zero(bytes),
    ensures
        zero_ended_at(before + bytes + seq![0u8] + rest, before.len() as int) == Ok::<_, ReadError>(
            (bytes, (before.len() + bytes.len() + 1) as int),
        ),
        zero_ended_at(before + bytes, before.len() as int) == Err::<(Seq<u8>, int), _>(
            ReadError::UnexpectedEof,
        ),
    decreases bytes.len(),
{
    let all = before + bytes + seq![0u8] + rest;
    if bytes.len() == 0 {
        assert(all[before.len() as int] == 0);
        assert(bytes =~= Seq::<u8>::empty());
    } else {
        let shorter = bytes.drop_first();
        assert(without_zero(shorter)) by {
            assert forall|i: int| 0 <= i < shorter.len() implies #[trigger] shorter[i] != 0 by {
                assert(shorter[i] == bytes[i + 1]);
            }
        }
        let longer = before.push(bytes[0]);
        law_zero_ended(longer, shorter, rest);
        assert(longer + shorter + seq![0u8] + rest =~= all);
        assert(longer + shorter =~= before + bytes);
        assert(all[before.len() as int] == bytes[0]);
        assert((before + bytes)[before.len() as int] == bytes[0]);
        assert(seq![bytes[0]] + shorter =~= bytes);
    }
}

/// Whether pairs of bytes hold no pair of zeros.
pub open spec fn without_zero_pair(bytes: Seq<u8>) -> bool {
    bytes.len() % 2 == 0 && forall|i: int, j: int|
        0 <= i && j == i + 1 && j < bytes.len() && i % 2 == 0 ==> !(#[trigger] bytes[i] == 0
            && #[trigger] bytes[j] == 0)
}

/// Pairs of bytes that a pair of zeros ends are read up to it, and it is passed over; where none follows,
/// the file ends too early.
pub proof fn law_zero_pair_ended(before: Seq<u8>, bytes: Seq<u8>, rest: Seq<u8>)
    requires
        without_zero_pair(bytes),
    ensures
        zero_pair_ended_at(before + bytes + seq![0u8, 0u8] + rest, before.len() as int) == Ok::<
            _,
            ReadError,
        >((bytes, (before.len() + bytes.len() + 2) as int)),
        zero_pair_ended_at(before + bytes, before.len() as int) == Err::<(Seq<u8>, int), _>(
            ReadError::UnexpectedEof,
        ),
    decreases bytes.len(),
{
    let all = before + bytes + seq![0u8, 0u8] + rest;
    let n = before.len() as int;
    if bytes.len() == 0 {
        assert(all[n] == 0 && all[n + 1] == 0);
        assert(bytes =~= Seq::<u8>::empty());
    } else {
        let shorter = bytes.skip(2);
        assert(without_zero_pair(shorter)) by {
            assert forall|i: int, j: int|
                0 <= i && j == i + 1 && j < shorter.len() && i % 2 == 0 implies !(#[trigger] shorter[i]
                == 0 && #[trigger] shorter[j] == 0) by {
                assert(shorter[i] == bytes[i + 2] && shorter[j] == bytes[j + 2]);
            }
        }
        let longer = before.push(bytes[0]).push(bytes[1]);
        law_zero_pair_ended(longer, shorter, rest);
        assert(longer + shorter + seq![0u8, 0u8] + rest =~= all);
        assert(longer + shorter =~= before + bytes);
        assert(all[n] == bytes[0] && all[n + 1] == bytes[1]);
        assert((before + bytes)[n] == bytes[0] && (before + bytes)[n + 1] == bytes[1]);
        assert(seq![bytes[0], bytes[1]] + shorter =~= bytes);
    }
}

/// The number that the four bytes at a place make up, the lowest first.
pub open spec fn four_bytes(data: Seq<u8>, at: int) -> int {
    data[at] + 256 * data[at + 1] + 65536 * data[at + 2] + 16777216 * data[at + 3]
}

proof fn lemma_four_bytes(data: Seq<u8>, at: int)
    requires
        0 <= at,
    ensures
        at + 4 <= data.len() ==> number_at(data, at, 4) == Ok::<_, ReadError>(
            (four_bytes(data, at) as nat, at + 4),
        ) && 0 <= four_bytes(data, at) <= u32::MAX,
        at + 4 > data.len() ==> number_at(data, at, 4) == Err::<(nat, int), _>(ReadError::UnexpectedEof),
{
    if at + 4 <= data.len() {
        law_little_endian(data[at], data[at + 1], data[at + 2], data[at + 3]);
        assert(data.subrange(at, at + 4) =~= seq![data[at], data[at + 1], data[at + 2], data[at + 3]]);
    }
}

/// Whether a text of ASCII characters stands at a place.
pub open spec fn says_at(data: Seq<u8>, at: int, text: Seq<char>) -> bool {
    at + text.len() <= data.len() && forall|i: int|
        0 <= i < text.len() ==> #[trigger] data[at + i] == text[i] as u8
}

proof fn lemma_says_at(data: Seq<u8>, at: int, text: Seq<char>, length: int)
    requires
        0 <= at,
        length == text.len(),
        at + length <= data.len(),
    ensures
        says_at(data, at, text) <==> data.subrange(at, at + length)
            == crate::installshield::entries::ascii(text),
{
    let part = data.subrange(at, at + length);
    let bytes = crate::installshield::entries::ascii(text);
    if says_at(data, at, text) {
        assert forall|i: int| 0 <= i < length implies part[i] == bytes[i] by {
            assert(data[at + i] == text[i] as u8);
        }
        assert(part =~= bytes);
    }
    if part == bytes {
        assert forall|i: int| 0 <= i < text.len() implies #[trigger] data[at + i] == text[i] as u8 by {
            assert(part[i] == bytes[i]);
        }
    }
}

proof fn lemma_magic(magic: Seq<u8>, text: Seq<u8>)
    requires
        magic.len() == 14,
        text.len() == 13,
        without_zero(text),
    ensures
        until_zero(magic) == Some(text) <==> magic.take(13) == text && magic[13] == 0,
{
    if magic.take(13) == text && magic[13] == 0 {
        law_until_zero(text, Seq::empty());
        assert(magic =~= text + seq![0u8] + Seq::<u8>::empty());
    }
    if until_zero(magic) == Some(text) {
        lemma_until_zero_prefix(magic);
        assert(magic.take(13) =~= text);
    }
}

proof fn lemma_until_zero_prefix(bytes: Seq<u8>)
    ensures
        until_zero(bytes) matches Some(text) ==> text.len() < bytes.len() && bytes[text.len() as int] == 0
            && bytes.take(text.len() as int) == text,
    decreases bytes.len(),
{
    if bytes.len() > 0 {
        if bytes[0] == 0 {
            assert(bytes.take(0) =~= Seq::<u8>::empty());
        } else {
            lemma_until_zero_prefix(bytes.drop_first());
            if let Some(rest) = until_zero(bytes.drop_first()) {
                assert(bytes.take(rest.len() + 1int) =~= seq![bytes[0]] + rest);
            }
        }
    }
}

/// The header is found by its magic, which a zero ends; behind it stand the number of files in two bytes and
/// the type in four, and its length is always the same. Anything else is not InstallShield's.
pub proof fn law_header(data: Seq<u8>, at: int)
    requires
        0 <= at,
        at + 46 <= u64::MAX,
        !says_at(data, at, "NB10"@),
    ensures
        ({
            let whole = at + 20 <= data.len();
            let plain = whole && says_at(data, at, "InstallShield"@) && data[at + 13] == 0;
            let stream = whole && says_at(data, at, "ISSetupStream"@) && data[at + 13] == 0;
            match header_at(data, at) {
                Ok((header, next)) => {
                    &&& plain || stream
                    &&& header.kind == if plain {
                        Kind::Plain
                    } else {
                        Kind::SetupStream
                    }
                    &&& header.num_files == data[at + 14] + 256 * data[at + 15]
                    &&& header.header_type == four_bytes(data, at + 16)
                    &&& next == at + 46
                },
                Err(error) => !plain && !stream && error == InstallShieldError::NotInstallShieldFile,
            }
        }),
{
    reveal_strlit("NB10");
    reveal_strlit("InstallShield");
    reveal_strlit("ISSetupStream");
    if at + 4 <= data.len() {
        lemma_says_at(data, at, "NB10"@, 4);
        if at + 20 <= data.len() {
            let magic = data.subrange(at, at + 14);
            let plain = crate::installshield::entries::ascii("InstallShield"@);
            let stream = crate::installshield::entries::ascii("ISSetupStream"@);
            lemma_says_at(data, at, "InstallShield"@, 13);
            lemma_says_at(data, at, "ISSetupStream"@, 13);
            assert(magic.take(13) =~= data.subrange(at, at + 13));
            assert(without_zero(plain)) by {
                assert forall|i: int| 0 <= i < plain.len() implies #[trigger] plain[i] != 0 by {
                    assert(plain[i] == "InstallShield"@[i] as u8);
                }
            }
            assert(without_zero(stream)) by {
                assert forall|i: int| 0 <= i < stream.len() implies #[trigger] stream[i] != 0 by {
                    assert(stream[i] == "ISSetupStream"@[i] as u8);
                }
            }
            lemma_magic(magic, plain);
            lemma_magic(magic, stream);
            law_little_endian(data[at + 14], data[at + 15], 0, 0);
            assert(data.subrange(at + 14, at + 16) =~= seq![data[at + 14], data[at + 15]]);
            lemma_four_bytes(data, at + 16);
        }
    }
}

/// Debug information may come before the header: twelve bytes behind its signature, and a text that a zero
/// ends. The header stands behind that.
pub proof fn law_debug_information(data: Seq<u8>, at: int, start: int)
    requires
        0 <= at,
        at + 16 <= u64::MAX,
        says_at(data, at, "NB10"@),
        !says_at(data, start, "NB10"@),
        zero_ended_at(data, at + 16) matches Ok((_, next)) && next == start,
        start + 4 <= data.len(),
    ensures
        header_at(data, at) == header_at(data, start),
{
    reveal_strlit("NB10");
    crate::installshield::read::lemma_zero_ended(data, at + 16);
    lemma_says_at(data, at, "NB10"@, 4);
    lemma_says_at(data, start, "NB10"@, 4);
}

/// Debug information that no zero ends, or that reaches too far, leaves no header; and it comes once at most.
pub proof fn law_refused_debug_information(data: Seq<u8>, at: int)
    requires
        0 <= at,
        says_at(data, at, "NB10"@),
    ensures
        at + 16 > u64::MAX ==> header_at(data, at) == Err::<(Header, int), _>(
            InstallShieldError::Io(ReadError::InvalidSeek),
        ),
        at + 16 <= u64::MAX ==> match zero_ended_at(data, at + 16) {
            Err(_) => header_at(data, at) == Err::<(Header, int), _>(
                InstallShieldError::NotInstallShieldFile,
            ),
            Ok((_, start)) => (start + 20 > data.len() || says_at(data, start, "NB10"@)) && start + 46
                <= u64::MAX ==> header_at(data, at) == Err::<(Header, int), _>(
                InstallShieldError::NotInstallShieldFile,
            ),
        },
{
    reveal_strlit("NB10");
    reveal_strlit("InstallShield");
    reveal_strlit("ISSetupStream");
    lemma_says_at(data, at, "NB10"@, 4);
    crate::installshield::read::lemma_zero_ended(data, at + 16);
    if let Ok((_, start)) = zero_ended_at(data, at + 16) {
        if start + 20 <= data.len() && says_at(data, start, "NB10"@) {
            assert(data[start + 0] == 'N' as u8);
            let magic = data.subrange(start, start + 14);
            lemma_until_zero_prefix(magic);
            lemma_four_bytes(data, start + 16);
            if let Some(text) = until_zero(magic) {
                if text.len() > 0 {
                    assert(magic.take(text.len() as int)[0] == data[start + 0]);
                }
                let plain = crate::installshield::entries::ascii("InstallShield"@);
                let stream = crate::installshield::entries::ascii("ISSetupStream"@);
                assert(plain[0] == 'I' as u8 && stream[0] == 'I' as u8);
            }
        }
    }
}

/// An entry of a plain overlay takes 312 bytes before the bytes of its file: a name of up to 260 bytes that a
/// zero ends, its flags, and, behind four bytes, its size.
pub proof fn law_plain_entry(data: Seq<u8>, at: int)
    requires
        0 <= at,
        at + 312 + u32::MAX <= u64::MAX,
    ensures
        match plain_entry_at(data, at) {
            Ok((file, next)) => {
                &&& at + 272 <= data.len()
                &&& file.name == plain_name(data.subrange(at, at + 260))
                &&& file.encoded_flags == four_bytes(data, at + 260)
                &&& file.size == four_bytes(data, at + 268)
                &&& file.offset == at + 312
                &&& next == at + 312 + file.size
            },
            Err(error) => at + 272 > data.len() && error == ReadError::UnexpectedEof,
        },
{
    lemma_four_bytes(data, at + 260);
    lemma_four_bytes(data, at + 268);
}

/// The name of a file in a plain overlay is the text of the bytes before the first zero; one that no zero ends
/// is no name.
pub proof fn law_plain_name(bytes: Seq<u8>, rest: Seq<u8>)
    requires
        without_zero(bytes),
    ensures
        plain_name(bytes + seq![0u8] + rest) == lossy_text(bytes),
        plain_name(bytes) == Seq::<char>::empty(),
{
    law_until_zero(bytes, rest);
}

/// An entry of a setup stream takes 24 bytes, and 24 more where the type of the header is four, before the
/// bytes of its name, behind which those of its file stand: the length of the name, its flags, and, behind
/// two bytes, its size.
pub proof fn law_stream_entry(data: Seq<u8>, at: int, header_type: u32)
    requires
        0 <= at,
        at + 48 + u32::MAX + u32::MAX <= u64::MAX,
        at + 14 <= data.len(),
    ensures
        ({
            let name_at = at + 24 + if header_type == 4 {
                24int
            } else {
                0
            };
            let name_len = four_bytes(data, at);
            match stream_entry_at(data, at, header_type) {
                Ok((file, next)) => {
                    &&& name_len > 0 ==> name_at + name_len <= data.len()
                    &&& name_len > 0 ==> file.name == stream_name(
                        data.subrange(name_at, name_at + name_len),
                    )
                    &&& name_len == 0 ==> file.name == Seq::<char>::empty()
                    &&& file.encoded_flags == four_bytes(data, at + 4)
                    &&& file.size == four_bytes(data, at + 10)
                    &&& file.offset == name_at + name_len
                    &&& next == file.offset + file.size
                },
                Err(error) => name_len > 0 && name_at + name_len > data.len() && error
                    == ReadError::UnexpectedEof,
            }
        }),
{
    lemma_four_bytes(data, at);
    lemma_four_bytes(data, at + 4);
    lemma_four_bytes(data, at + 10);
}

/// An entry of a setup stream that the file ends in cannot be read.
pub proof fn law_short_stream_entry(data: Seq<u8>, at: int, header_type: u32)
    requires
        0 <= at,
        at + 48 + u32::MAX + u32::MAX <= u64::MAX,
        at + 14 > data.len(),
    ensures
        stream_entry_at(data, at, header_type) == Err::<(FileView, int), _>(ReadError::UnexpectedEof),
{
    lemma_four_bytes(data, at);
    lemma_four_bytes(data, at + 4);
    lemma_four_bytes(data, at + 10);
}

/// The name of a file in a setup stream is the UTF-16 text of its bytes, without the zeros around it.
pub proof fn law_stream_name(bytes: Seq<u8>)
    ensures
        bytes.len() > 0 ==> stream_name(bytes) == char_trimmed_back(
            char_trimmed_front(charset_text(Charset::Utf16Le, bytes), '\0'),
            '\0',
        ),
        bytes.len() == 0 ==> stream_name(bytes) == Seq::<char>::empty(),
{
}

proof fn lemma_entries_behind(
    kind: Kind,
    header_type: u32,
    data: Seq<u8>,
    at: int,
    count: nat,
    files: Seq<FileView>,
)
    ensures
        entries_at(kind, header_type, data, at, count, files) == match entries_at(
            kind,
            header_type,
            data,
            at,
            count,
            Seq::empty(),
        ) {
            Ok(rest) => Ok::<Seq<FileView>, ReadError>(files + rest),
            Err(error) => Err(error),
        },
    decreases count,
{
    let none = Seq::<FileView>::empty();
    if count == 0 {
        assert(files + none =~= files);
    } else if let Ok((file, next)) = entry_at(kind, header_type, data, at) {
        let left = (count - 1) as nat;
        lemma_entries_behind(kind, header_type, data, next, left, files.push(file));
        lemma_entries_behind(kind, header_type, data, next, left, none.push(file));
        if let Ok(rest) = entries_at(kind, header_type, data, next, left, none) {
            assert(files.push(file) + rest =~= files + (none.push(file) + rest));
        }
    }
}

/// The entries are read one behind the other, each where the one before ends, as many as there are; each
/// stands in the list in its turn, and the first that cannot be read stops it.
pub proof fn law_entries_in_turn(kind: Kind, header_type: u32, data: Seq<u8>, at: int, count: nat)
    ensures
        entries_at(kind, header_type, data, at, 0, Seq::empty()) == Ok::<_, ReadError>(
            Seq::<FileView>::empty(),
        ),
        count > 0 ==> match (
            match kind {
                Kind::Plain => plain_entry_at(data, at),
                Kind::SetupStream => stream_entry_at(data, at, header_type),
            },
            entries_at(kind, header_type, data, at, count, Seq::empty()),
        ) {
            (Err(error), r) => r == Err::<Seq<FileView>, _>(error),
            (Ok((file, next)), r) => match (
                r,
                entries_at(kind, header_type, data, next, (count - 1) as nat, Seq::empty()),
            ) {
                (Ok(files), Ok(rest)) => files == seq![file] + rest,
                (Err(error), Err(other)) => error == other,
                _ => false,
            },
        },
{
    if count > 0 {
        if let Ok((file, next)) = entry_at(kind, header_type, data, at) {
            let none = Seq::<FileView>::empty();
            lemma_entries_behind(kind, header_type, data, next, (count - 1) as nat, none.push(file));
            assert(none.push(file) =~= seq![file]);
        }
    }
}

/// A text of an InstallScript overlay is ended by a zero, or, where it is written in UTF-16, by two.
pub proof fn law_script_text(before: Seq<u8>, bytes: Seq<u8>, rest: Seq<u8>)
    ensures
        without_zero(bytes) ==> script_text_at(
            ScriptEncoding::Ascii,
            before + bytes + seq![0u8] + rest,
            before.len() as int,
        ) == Ok::<_, ReadError>((lossy_text(bytes), (before.len() + bytes.len() + 1) as int)),
        without_zero_pair(bytes) ==> script_text_at(
            ScriptEncoding::Unicode,
            before + bytes + seq![0u8, 0u8] + rest,
            before.len() as int,
        ) == Ok::<_, ReadError>(
            (charset_text(Charset::Utf16Le, bytes), (before.len() + bytes.len() + 2) as int),
        ),
{
    if without_zero(bytes) {
        law_zero_ended(before, bytes, rest);
    }
    if without_zero_pair(bytes) {
        law_zero_pair_ended(before, bytes, rest);
    }
}

/// An entry of an InstallScript overlay is made of four texts, its name, a path, a version and its size,
/// with the bytes of the file behind them; a size that is no number is none. The next entry stands behind
/// those bytes. The list ends with as many files as there are, with the overlay, or with an empty name.
pub proof fn law_script_entry(
    encoding: ScriptEncoding,
    data: Seq<u8>,
    at: int,
    places: (int, int, int, int),
    texts: (Seq<char>, Seq<char>, Seq<char>, Seq<char>),
    count: nat,
    end: int,
    files: Seq<FileView>,
)
    requires
        0 <= at,
        script_text_at(encoding, data, at) == Ok::<_, ReadError>((texts.0, places.0)),
        script_text_at(encoding, data, places.0) == Ok::<_, ReadError>((texts.1, places.1)),
        script_text_at(encoding, data, places.1) == Ok::<_, ReadError>((texts.2, places.2)),
        script_text_at(encoding, data, places.2) == Ok::<_, ReadError>((texts.3, places.3)),
        places.3 + u32::MAX <= u64::MAX,
    ensures
        ({
            let read = script_entries_at(encoding, data, at, count, end, files);
            let size = match number_value(texts.3, 10, 0xFFFF_FFFF) {
                Some(size) => size,
                None => 0,
            };
            if files.len() < count && at < end && places.0 <= end && texts.0.len() > 0 {
                read == script_entries_at(
                    encoding,
                    data,
                    places.3 + size,
                    count,
                    end,
                    files.push(
                        (FileView {
                            name: texts.0,
                            encoded_flags: 0,
                            size: size as u32,
                            offset: places.3 as u64,
                        }),
                    ),
                )
            } else {
                read == Ok::<_, ReadError>(files)
            }
        }),
{
}

/// An entry of an InstallScript overlay of which a text is missing stops the list with the reason.
pub proof fn law_refused_script_entry(
    encoding: ScriptEncoding,
    data: Seq<u8>,
    at: int,
    count: nat,
    end: int,
    files: Seq<FileView>,
)
    requires
        0 <= at < end,
        files.len() < count,
    ensures
        match script_text_at(encoding, data, at) {
            Err(error) => script_entries_at(encoding, data, at, count, end, files) == Err::<
                Seq<FileView>,
                _,
            >(error),
            Ok((name, path_at)) => name.len() > 0 && path_at <= end ==> match script_text_at(
                encoding,
                data,
                path_at,
            ) {
                Err(error) => script_entries_at(encoding, data, at, count, end, files) == Err::<
                    Seq<FileView>,
                    _,
                >(error),
                Ok((_, version_at)) => match script_text_at(encoding, data, version_at) {
                    Err(error) => script_entries_at(encoding, data, at, count, end, files) == Err::<
                        Seq<FileView>,
                        _,
                    >(error),
                    Ok((_, size_at)) => script_text_at(encoding, data, size_at) matches Err(error)
                        ==> script_entries_at(encoding, data, at, count, end, files) == Err::<
                        Seq<FileView>,
                        _,
                    >(error),
                },
            },
        },
{
}

/// Each byte of an encoded file has its halves swapped, is mixed with a byte of the key and turned over; the
/// key is the name of the file, mixed with four bytes in turn. It starts anew with every 1024 bytes where the
/// file is encoded in chunks. A file that is not encoded stays as it is, and a name without bytes gives no
/// key.
pub proof fn law_decoded(file: FileView, raw: Seq<u8>, i: int)
    requires
        0 <= i < raw.len(),
    ensures
        ({
            let name = encode_utf8(file.name);
            let chunked = file.encoded_flags & 4u32 != 0;
            let encoded = file.encoded_flags & 2u32 != 0;
            if !chunked && !encoded {
                decoded_contents(file, raw) == Some(raw)
            } else if name.len() == 0 {
                decoded_contents(file, raw) is None
            } else {
                let j = (if chunked {
                    i % 1024
                } else {
                    i
                }) % (name.len() as int);
                let magic = seq![0x13u8, 0x35u8, 0x86u8, 0x07u8][j % 4];
                let swapped = ((raw[i] % 16) * 16 + raw[i] / 16) as u8;
                decoded_contents(file, raw) matches Some(decoded) && decoded.len() == raw.len()
                    && decoded[i] == 255 - ((name[j] ^ magic) ^ swapped)
            }
        }),
{
    let name = encode_utf8(file.name);
    let byte = raw[i];
    if name.len() > 0 {
        let chunked = file.encoded_flags & 4u32 != 0;
        let j = (if chunked {
            i % 1024
        } else {
            i
        }) % (name.len() as int);
        let magic = seq![0x13u8, 0x35u8, 0x86u8, 0x07u8][j % 4];
        assert(0 <= j < name.len());
        let key = name[j] ^ magic;
        let swapped = ((byte % 16) * 16 + byte / 16) as u8;
        assert(((byte % 16) * 16 + byte / 16) as u8 == (byte << 4) | (byte >> 4)) by (bit_vector);
        let mixed = key ^ swapped;
        assert(!mixed == 255 - mixed) by (bit_vector);
        assert(crate::installshield::file::file_key(name)[j] == key);
        assert(0 + i == i);
    }
}

/// Bytes are decoded with the key from a place of it on, over and over.
pub proof fn law_decoded_bytes(data: Seq<u8>, key: Seq<u8>, key_offset: int, i: int)
    requires
        0 <= i < data.len(),
        key.len() > 0,
        0 <= key_offset,
    ensures
        decoded_bytes(data, key, key_offset).len() == data.len(),
        decoded_bytes(data, key, key_offset)[i] == 255 - (key[(key_offset + i) % (key.len() as int)] ^ ((
        data[i] % 16) * 16 + data[i] / 16) as u8),
{
    let byte = data[i];
    assert(((byte % 16) * 16 + byte / 16) as u8 == (byte << 4) | (byte >> 4)) by (bit_vector);
    let mixed = key[(key_offset + i) % (key.len() as int)] ^ (((byte % 16) * 16 + byte / 16) as u8);
    assert(!mixed == 255 - mixed) by (bit_vector);
}

/// A byte order mark tells of its charset, and how many bytes it takes; other bytes tell nothing.
pub proof fn law_marked_charset(data: Seq<u8>)
    ensures
        ({
            let utf8 = data.len() >= 3 && data[0] == 0xEF && data[1] == 0xBB && data[2] == 0xBF;
            let little = data.len() >= 2 && data[0] == 0xFF && data[1] == 0xFE;
            let big = data.len() >= 2 && data[0] == 0xFE && data[1] == 0xFF;
            &&& utf8 ==> marked_charset(data) == Some((Charset::Utf8, 3usize))
            &&& little ==> marked_charset(data) == Some((Charset::Utf16Le, 2usize))
            &&& big ==> marked_charset(data) == Some((Charset::Utf16Be, 2usize))
            &&& !utf8 && !little && !big ==> marked_charset(data) is None
        }),
{
    let a = seq![0xEFu8, 0xBBu8, 0xBFu8];
    let b = seq![0xFFu8, 0xFEu8];
    let c = seq![0xFEu8, 0xFFu8];
    if data.len() >= 3 {
        let start = data.subrange(0, 3);
        assert(start[0] == data[0] && start[1] == data[1] && start[2] == data[2]);
        assert(start == a ==> start[0] == a[0] && start[1] == a[1] && start[2] == a[2]);
        if data[0] == 0xEF && data[1] == 0xBB && data[2] == 0xBF {
            assert(a =~= start);
        }
    }
    if data.len() >= 2 {
        let start = data.subrange(0, 2);
        assert(start[0] == data[0] && start[1] == data[1]);
        assert(start == b ==> start[0] == b[0] && start[1] == b[1]);
        assert(start == c ==> start[0] == c[0] && start[1] == c[1]);
        if data[0] == 0xFF && data[1] == 0xFE {
            assert(b =~= start);
        }
        if data[0] == 0xFE && data[1] == 0xFF {
            assert(c =~= start);
        }
    }
}

/// No place is farther than a file can reach.
pub proof fn law_place_after(at: int, count: int)
    ensures
        at + count <= 0xFFFF_FFFF_FFFF_FFFF ==> place_after(at, count) == Ok::<_, ReadError>(at + count),
        at + count > 0xFFFF_FFFF_FFFF_FFFF ==> place_after(at, count) == Err::<int, _>(
            ReadError::InvalidSeek,
        ),
{
}

/// What a file holds are its bytes at its place, decoded, and inflated where they are encoded and make up a
/// stream; a file that reaches past the end cannot be read.
pub proof fn law_contents(file: FileView, data: Seq<u8>, raw: Seq<u8>)
    ensures
        ({
            let start = file.offset as int;
            let end = file.offset + file.size;
            let encoded = file.encoded_flags & 4u32 != 0 || file.encoded_flags & 2u32 != 0;
            &&& file.size > 0 && end > data.len() ==> embedded_contents(file, data) == Err::<
                Option<Seq<u8>>,
                _,
            >(FileError::Io(ReadError::UnexpectedEof))
            &&& (file.size > 0 && end <= data.len() && raw == data.subrange(start, end)) || (file.size == 0
                && raw == Seq::<u8>::empty()) ==> match (
                decoded_contents(file, raw),
                embedded_contents(file, data),
            ) {
                (None, Ok(None)) => true,
                (Some(decoded), Ok(Some(contents))) => contents == if encoded && inflated(
                    decoded,
                ) is Some {
                    inflated(decoded).unwrap()
                } else {
                    decoded
                },
                _ => false,
            }
        }),
{
}

/// A byte order mark decides how a text is read, and does not belong to it; without one it is UTF-8 where it
/// can be, and else UTF-16.
pub proof fn law_text_of(data: Seq<u8>)
    ensures
        text_of(seq![0xEFu8, 0xBBu8, 0xBFu8] + data) == charset_text(Charset::Utf8, data),
        text_of(seq![0xFFu8, 0xFEu8] + data) == charset_text(Charset::Utf16Le, data),
        text_of(seq![0xFEu8, 0xFFu8] + data) == charset_text(Charset::Utf16Be, data),
        ({
            let marked = (data.len() >= 3 && data[0] == 0xEF && data[1] == 0xBB && data[2] == 0xBF) || (
            data.len() >= 2 && data[0] == 0xFF && data[1] == 0xFE) || (data.len() >= 2 && data[0] == 0xFE
                && data[1] == 0xFF);
            &&& !marked && valid_utf8(data) ==> text_of(data) == decode_utf8(data)
            &&& !marked && !valid_utf8(data) ==> text_of(data) == charset_text(Charset::Utf16Le, data)
        }),
{
    let a = seq![0xEFu8, 0xBBu8, 0xBFu8];
    let b = seq![0xFFu8, 0xFEu8];
    let c = seq![0xFEu8, 0xFFu8];
    assert(a =~= (a + data).subrange(0, 3));
    assert(b =~= (b + data).subrange(0, 2));
    assert(c =~= (c + data).subrange(0, 2));
    assert((a + data)[0] == 0xEF && (b + data)[0] == 0xFF && (c + data)[0] == 0xFE);
    assert((a + data).skip(3) =~= data);
    assert((b + data).skip(2) =~= data);
    assert((c + data).skip(2) =~= data);
    if a.is_prefix_of(b + data) {
        assert((b + data).subrange(0, 3)[0] == a[0]);
    }
    if a.is_prefix_of(c + data) {
        assert((c + data).subrange(0, 3)[0] == a[0]);
    }
    if b.is_prefix_of(c + data) {
        assert((c + data).subrange(0, 2)[0] == b[0]);
    }
    if a.is_prefix_of(data) {
        assert(data.subrange(0, 3)[0] == a[0] && data.subrange(0, 3)[1] == a[1] && data.subrange(
            0,
            3,
        )[2] == a[2]);
    }
    if b.is_prefix_of(data) {
        assert(data.subrange(0, 2)[0] == b[0] && data.subrange(0, 2)[1] == b[1]);
    }
    if c.is_prefix_of(data) {
        assert(data.subrange(0, 2)[0] == c[0] && data.subrange(0, 2)[1] == c[1]);
    }
}

/// The text of a setup file is that of the last file with its name, where that can be read.
pub proof fn law_found_text(files: Seq<FileView>, data: Seq<u8>, name: Seq<char>)
    ensures
        match (last_named(files, name), found_text(files, data, name)) {
            (None, None) => true,
            (None, Some(_)) => false,
            (Some(file), Some(text)) => (embedded_contents(file, data) matches Ok(Some(contents)) && text
                == text_of(contents)),
            (Some(file), None) => match embedded_contents(file, data) {
                Ok(Some(_)) => false,
                _ => true,
            },
        },
{
}

/// The files of an executable are listed in its overlay, and there are none without one. What is said of the
/// version information decides how: an InstallScript overlay in UTF-16 starts with the number of its files in
/// four bytes, one in ASCII with the first of them; any other with a header.
pub proof fn law_embedded_files(data: Seq<u8>, pe: PeFacts, overlay: u64)
    requires
        overlay + 4 <= data.len(),
    ensures
        pe.overlay_offset is None ==> embedded_files(data, pe) == Err::<Seq<FileView>, _>(
            InstallShieldError::NotInstallShieldFile,
        ),
        pe.overlay_offset == Some(overlay) ==> ({
            let at = overlay as int;
            let end = match pe.certificate_address {
                Some(address) if address > overlay => address as int,
                _ => data.len() as int,
            };
            let none = Seq::<FileView>::empty();
            match script_encoding(pe.version_strings) {
                Some(ScriptEncoding::Unicode) => is_listing(
                    embedded_files(data, pe),
                    script_entries_at(
                        ScriptEncoding::Unicode,
                        data,
                        at + 4,
                        four_bytes(data, at) as nat,
                        end,
                        none,
                    ),
                ),
                Some(ScriptEncoding::Ascii) => is_listing(
                    embedded_files(data, pe),
                    script_entries_at(ScriptEncoding::Ascii, data, at, 0xFFFF_FFFF, end, none),
                ),
                None => match header_at(data, at) {
                    Err(error) => embedded_files(data, pe) == Err::<Seq<FileView>, _>(error),
                    Ok((header, next)) => match header.kind {
                        Kind::Plain => is_listing(
                            embedded_files(data, pe),
                            entries_at(Kind::Plain, 0, data, next, header.num_files as nat, none),
                        ),
                        Kind::SetupStream => is_listing(
                            embedded_files(data, pe),
                            entries_at(
                                Kind::SetupStream,
                                header.header_type,
                                data,
                                next,
                                header.num_files as nat,
                                none,
                            ),
                        ),
                    },
                },
            }
        }),
{
    lemma_four_bytes(data, overlay as int);
}

/// An InstallScript overlay in UTF-16 that is too short for the number of its files cannot be read, and an overlay
/// that is too short for a header is not InstallShield's.
pub proof fn law_short_embedded_files(data: Seq<u8>, pe: PeFacts, overlay: u64)
    requires
        pe.overlay_offset == Some(overlay),
        overlay + 4 > data.len(),
    ensures
        script_encoding(pe.version_strings) == Some(ScriptEncoding::Unicode) ==> embedded_files(data, pe)
            == Err::<Seq<FileView>, _>(InstallShieldError::Io(ReadError::UnexpectedEof)),
        script_encoding(pe.version_strings) is None ==> embedded_files(data, pe) == Err::<
            Seq<FileView>,
            _,
        >(InstallShieldError::NotInstallShieldFile),
{
    lemma_four_bytes(data, overlay as int);
}

/// Whether the files of an executable are those that were listed.
pub open spec fn is_listing(
    files: Result<Seq<FileView>, InstallShieldError>,
    listed: Result<Seq<FileView>, ReadError>,
) -> bool {
    match (files, listed) {
        (Ok(files), Ok(listed)) => files == listed,
        (Err(InstallShieldError::Io(error)), Err(other)) => error == other,
        _ => false,
    }
}

} // verus!
