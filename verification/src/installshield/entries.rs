//! The overlay of an InstallShield installer: its header and the list of its files.
use vstd::prelude::*;
use vstd::string::*;
use vstd::utf8::{decode_utf8, valid_utf8};

use super::file::{charset_text, decode, Charset, File, FileError, FileView};
use super::read::{
    bytes_at, lemma_number_bound, lemma_zero_ended, number_at, place_after, zero_ended_at,
    zero_pair_ended_at, ReadError, Reader,
};
use crate::number::{number_value, parse_number};
use crate::search::{char_trimmed_back, char_trimmed_front, trim_matches};
use crate::text::chars_of;

verus! {

/// Why a file is not taken as an InstallShield installer.
#[derive(Debug)]
pub enum InstallShieldError {
    NotInstallShieldFile,
    File(FileError),
    Io(ReadError),
    Ini(String),
}

/// How an overlay lists its files.
#[derive(Clone, Copy, Debug, Eq, PartialEq, Structural)]
pub enum Kind {
    Plain,
    SetupStream,
}

/// The header of an overlay.
#[derive(Clone, Copy, Debug, Eq, PartialEq, Structural)]
pub struct Header {
    pub kind: Kind,
    pub num_files: u16,
    pub header_type: u32,
}

/// The error of a header that cannot be read. One that ends too early is not InstallShield's.
pub open spec fn header_error(error: ReadError) -> InstallShieldError {
    match error {
        ReadError::UnexpectedEof => InstallShieldError::NotInstallShieldFile,
        ReadError::InvalidSeek => InstallShieldError::Io(error),
    }
}

fn on_eof(error: ReadError) -> (r: InstallShieldError)
    ensures
        r == header_error(error),
{
    match error {
        ReadError::UnexpectedEof => InstallShieldError::NotInstallShieldFile,
        ReadError::InvalidSeek => InstallShieldError::Io(error),
    }
}

/// The bytes before the first zero, where there is one.
pub open spec fn until_zero(bytes: Seq<u8>) -> Option<Seq<u8>>
    decreases bytes.len(),
{
    if bytes.len() == 0 {
        None
    } else if bytes[0] == 0 {
        Some(Seq::empty())
    } else {
        match until_zero(bytes.drop_first()) {
            Some(rest) => Some(seq![bytes[0]] + rest),
            None => None,
        }
    }
}

/// The bytes before the first zero, where there is one.
fn before_zero(bytes: &Vec<u8>) -> (r: Option<Vec<u8>>)
    ensures
        until_zero(bytes@) == match r {
            Some(name) => Some(name@),
            None => None::<Seq<u8>>,
        },
{
    let mut name: Vec<u8> = Vec::new();
    let mut i: usize = 0;
    assert(bytes@.skip(0) =~= bytes@);
    while i < bytes.len()
        invariant
            i <= bytes.len(),
            until_zero(bytes@) == match until_zero(bytes@.skip(i as int)) {
                Some(rest) => Some(name@ + rest),
                None => None::<Seq<u8>>,
            },
        decreases bytes.len() - i,
    {
        let ghost rest = bytes@.skip(i as int);
        let ghost before = name@;
        assert(rest.drop_first() =~= bytes@.skip(i + 1));
        let byte: u8 = bytes[i];
        if byte == 0 {
            assert(name@ + Seq::<u8>::empty() =~= name@);
            return Some(name);
        }
        name.push(byte);
        i += 1;
        proof {
            if let Some(tail) = until_zero(bytes@.skip(i as int)) {
                assert(before + (seq![byte] + tail) =~= name@ + tail);
            }
        }
    }
    None
}

/// The kind of overlay that a magic tells of.
pub open spec fn magic_kind(magic: Seq<u8>) -> Option<Kind> {
    if until_zero(magic) == Some(ascii("InstallShield"@)) {
        Some(Kind::Plain)
    } else if until_zero(magic) == Some(ascii("ISSetupStream"@)) {
        Some(Kind::SetupStream)
    } else {
        None
    }
}

/// The bytes of an ASCII text.
pub open spec fn ascii(s: Seq<char>) -> Seq<u8> {
    s.map_values(|c: char| c as u8)
}

/// Where the header starts behind the debug information that may come first.
pub open spec fn header_start(data: Seq<u8>, at: int) -> Result<int, InstallShieldError> {
    match bytes_at(data, at, 4) {
        Err(error) => Err(header_error(error)),
        Ok((signature, next)) => if signature == ascii("NB10"@) {
            match place_after(next, 12) {
                Err(error) => Err(InstallShieldError::Io(error)),
                Ok(name) => match zero_ended_at(data, name) {
                    Err(error) => Err(header_error(error)),
                    Ok((_, start)) => Ok(start),
                },
            }
        } else {
            Ok(at)
        },
    }
}

/// The header at a place, and the place behind it.
pub open spec fn header_at(data: Seq<u8>, at: int) -> Result<(Header, int), InstallShieldError> {
    match header_start(data, at) {
        Err(error) => Err(error),
        Ok(start) => match bytes_at(data, start, 14) {
            Err(error) => Err(header_error(error)),
            Ok((magic, files_at)) => match number_at(data, files_at, 2) {
                Err(error) => Err(header_error(error)),
                Ok((num_files, type_at)) => match number_at(data, type_at, 4) {
                    Err(error) => Err(header_error(error)),
                    Ok((header_type, reserved)) => match place_after(reserved, 26) {
                        Err(error) => Err(InstallShieldError::Io(error)),
                        Ok(next) => match magic_kind(magic) {
                            None => Err(InstallShieldError::NotInstallShieldFile),
                            Some(kind) => Ok(
                                (
                                    Header {
                                        kind,
                                        num_files: num_files as u16,
                                        header_type: header_type as u32,
                                    },
                                    next,
                                ),
                            ),
                        },
                    },
                },
            },
        },
    }
}

/// Whether bytes are those of an ASCII text.
fn is_ascii_text(bytes: &Vec<u8>, text: &str) -> (r: bool)
    requires
        forall|i: int| 0 <= i < text@.len() ==> (#[trigger] text@[i] as u32) < 128,
    ensures
        r == (bytes@ == ascii(text@)),
{
    let chars = chars_of(text);
    if bytes.len() != chars.len() {
        return false;
    }
    let mut i: usize = 0;
    while i < bytes.len()
        invariant
            i <= bytes.len() == chars.len(),
            chars@ == text@,
            forall|k: int| 0 <= k < text@.len() ==> (#[trigger] text@[k] as u32) < 128,
            forall|k: int| 0 <= k < i ==> bytes@[k] == #[trigger] ascii(text@)[k],
        decreases bytes.len() - i,
    {
        let c = chars[i];
        assert((text@[i as int] as u32) < 128);
        if bytes[i] != c as u8 {
            assert(bytes@[i as int] != ascii(text@)[i as int]);
            return false;
        }
        i += 1;
    }
    assert(bytes@ =~= ascii(text@));
    true
}

proof fn lemma_magic_texts()
    ensures
        forall|i: int| 0 <= i < "NB10"@.len() ==> (#[trigger] "NB10"@[i] as u32) < 128,
        forall|i: int|
            0 <= i < "InstallShield"@.len() ==> (#[trigger] "InstallShield"@[i] as u32) < 128,
        forall|i: int|
            0 <= i < "ISSetupStream"@.len() ==> (#[trigger] "ISSetupStream"@[i] as u32) < 128,
{
    reveal_strlit("NB10");
    reveal_strlit("InstallShield");
    reveal_strlit("ISSetupStream");
}

impl Header {
    /// Reads the header at the reader's place.
    pub fn read<'a>(reader: &mut Reader<'a>) -> (r: Result<Header, InstallShieldError>)
        ensures
            final(reader).data@ == old(reader).data@,
            match r {
                Ok(header) => header_at(old(reader).data@, old(reader).pos as int) == Ok::<
                    _,
                    InstallShieldError,
                >((header, final(reader).pos as int)),
                Err(error) => header_at(old(reader).data@, old(reader).pos as int) == Err::<
                    (Header, int),
                    _,
                >(error),
            },
    {
        proof {
            lemma_magic_texts();
        }
        let start: u64 = reader.pos;
        let signature = match reader.read_exact(4) {
            Ok(signature) => signature,
            Err(error) => {
                return Err(on_eof(error));
            },
        };
        if is_ascii_text(&signature, "NB10") {
            if let Err(error) = reader.skip(12) {
                return Err(InstallShieldError::Io(error));
            }
            if let Err(error) = reader.read_zero_ended() {
                return Err(on_eof(error));
            }
        } else {
            reader.pos = start;
        }
        let magic = match reader.read_exact(14) {
            Ok(magic) => magic,
            Err(error) => {
                return Err(on_eof(error));
            },
        };
        let num_files: u16 = match reader.read_u16() {
            Ok(num_files) => num_files,
            Err(error) => {
                return Err(on_eof(error));
            },
        };
        let header_type: u32 = match reader.read_u32() {
            Ok(header_type) => header_type,
            Err(error) => {
                return Err(on_eof(error));
            },
        };
        if let Err(error) = reader.skip(26) {
            return Err(InstallShieldError::Io(error));
        }
        let kind = match before_zero(&magic) {
            Some(name) => if is_ascii_text(&name, "InstallShield") {
                Kind::Plain
            } else if is_ascii_text(&name, "ISSetupStream") {
                Kind::SetupStream
            } else {
                return Err(InstallShieldError::NotInstallShieldFile);
            },
            None => {
                return Err(InstallShieldError::NotInstallShieldFile);
            },
        };
        Ok(Header { kind, num_files, header_type })
    }
}

/// The text that bytes stand for in UTF-8, with replacement characters where they are not valid.
pub uninterp spec fn lossy_text(data: Seq<u8>) -> Seq<char>;

/// `String::from_utf8_lossy` gives the text of valid UTF-8, and else one that depends on the bytes
/// alone.
#[verifier::external_body]
fn from_utf8_lossy(data: &[u8]) -> (r: String)
    ensures
        r@ == lossy_text(data@),
        valid_utf8(data@) ==> r@ == decode_utf8(data@),
{
    String::from_utf8_lossy(data).into_owned()
}

/// A failure to read, as the error of an installer.
fn io<T>(r: Result<T, ReadError>) -> (s: Result<T, InstallShieldError>)
    ensures
        s == match r {
            Ok(value) => Ok::<T, InstallShieldError>(value),
            Err(error) => Err(InstallShieldError::Io(error)),
        },
{
    match r {
        Ok(value) => Ok(value),
        Err(error) => Err(InstallShieldError::Io(error)),
    }
}

/// What a list of files says.
pub open spec fn file_views(files: Seq<File>) -> Seq<FileView> {
    files.map_values(|file: File| file@)
}

/// The name of a file in a plain overlay: the text before the first zero.
pub open spec fn plain_name(raw: Seq<u8>) -> Seq<char> {
    match until_zero(raw) {
        Some(bytes) => lossy_text(bytes),
        None => Seq::empty(),
    }
}

/// The name of a file in a setup stream.
pub open spec fn stream_name(raw: Seq<u8>) -> Seq<char> {
    if raw.len() == 0 {
        Seq::empty()
    } else {
        char_trimmed_back(char_trimmed_front(charset_text(Charset::Utf16Le, raw), '\0'), '\0')
    }
}

/// The file with the given name, flags and size whose bytes start at a place, and the place behind
/// them.
pub open spec fn file_at(name: Seq<char>, encoded_flags: nat, size: nat, at: int) -> Result<
    (FileView, int),
    ReadError,
> {
    match place_after(at, size as int) {
        Err(error) => Err(error),
        Ok(next) => Ok(
            (
                FileView {
                    name,
                    encoded_flags: encoded_flags as u32,
                    size: size as u32,
                    offset: at as u64,
                },
                next,
            ),
        ),
    }
}

/// The entry of a plain overlay at a place, and the place behind it.
pub open spec fn plain_entry_at(data: Seq<u8>, at: int) -> Result<(FileView, int), ReadError> {
    match bytes_at(data, at, 260) {
        Err(error) => Err(error),
        Ok((raw, flags_at)) => match number_at(data, flags_at, 4) {
            Err(error) => Err(error),
            Ok((flags, reserved)) => match place_after(reserved, 4) {
                Err(error) => Err(error),
                Ok(size_at) => match number_at(data, size_at, 4) {
                    Err(error) => Err(error),
                    Ok((size, more)) => match place_after(more, 40) {
                        Err(error) => Err(error),
                        Ok(start) => file_at(plain_name(raw), flags, size, start),
                    },
                },
            },
        },
    }
}

/// The entry of a setup stream at a place, and the place behind it.
pub open spec fn stream_entry_at(data: Seq<u8>, at: int, header_type: u32) -> Result<
    (FileView, int),
    ReadError,
> {
    match number_at(data, at, 4) {
        Err(error) => Err(error),
        Ok((name_len, flags_at)) => match number_at(data, flags_at, 4) {
            Err(error) => Err(error),
            Ok((flags, reserved)) => match place_after(reserved, 2) {
                Err(error) => Err(error),
                Ok(size_at) => match number_at(data, size_at, 4) {
                    Err(error) => Err(error),
                    Ok((size, more)) => match place_after(more, 10) {
                        Err(error) => Err(error),
                        Ok(attributes) => match place_after(
                            attributes,
                            if header_type == 4 {
                                24
                            } else {
                                0
                            },
                        ) {
                            Err(error) => Err(error),
                            Ok(name_at) => match bytes_at(data, name_at, name_len as int) {
                                Err(error) => Err(error),
                                Ok((raw, start)) => file_at(stream_name(raw), flags, size, start),
                            },
                        },
                    },
                },
            },
        },
    }
}

/// The entry of an overlay at a place, and the place behind it.
pub open spec fn entry_at(kind: Kind, header_type: u32, data: Seq<u8>, at: int) -> Result<
    (FileView, int),
    ReadError,
> {
    match kind {
        Kind::Plain => plain_entry_at(data, at),
        Kind::SetupStream => stream_entry_at(data, at, header_type),
    }
}

/// The `count` entries of an overlay from a place on, behind those that were there before.
pub open spec fn entries_at(
    kind: Kind,
    header_type: u32,
    data: Seq<u8>,
    at: int,
    count: nat,
    files: Seq<FileView>,
) -> Result<Seq<FileView>, ReadError>
    decreases count,
{
    if count == 0 {
        Ok(files)
    } else {
        match entry_at(kind, header_type, data, at) {
            Err(error) => Err(error),
            Ok((file, next)) => entries_at(
                kind,
                header_type,
                data,
                next,
                (count - 1) as nat,
                files.push(file),
            ),
        }
    }
}

/// Reads an entry of a plain overlay.
fn read_plain_entry<'a>(reader: &mut Reader<'a>) -> (r: Result<File, ReadError>)
    ensures
        final(reader).data@ == old(reader).data@,
        match r {
            Ok(file) => plain_entry_at(old(reader).data@, old(reader).pos as int) == Ok::<
                _,
                ReadError,
            >((file@, final(reader).pos as int)),
            Err(error) => plain_entry_at(old(reader).data@, old(reader).pos as int) == Err::<
                (FileView, int),
                _,
            >(error),
        },
{
    let raw = reader.read_exact(260)?;
    let encoded_flags: u32 = reader.read_u32()?;
    reader.skip(4)?;
    let size: u32 = reader.read_u32()?;
    reader.skip(40)?;
    let name = match before_zero(&raw) {
        Some(bytes) => from_utf8_lossy(bytes.as_slice()),
        None => String::new(),
    };
    assert(name@ =~= plain_name(raw@));
    let offset: u64 = reader.pos;
    reader.skip(size)?;
    Ok(File { name, encoded_flags, size, offset })
}

/// Reads an entry of a setup stream.
fn read_stream_entry<'a>(reader: &mut Reader<'a>, header_type: u32) -> (r: Result<File, ReadError>)
    ensures
        final(reader).data@ == old(reader).data@,
        match r {
            Ok(file) => stream_entry_at(old(reader).data@, old(reader).pos as int, header_type) == Ok::<
                _,
                ReadError,
            >((file@, final(reader).pos as int)),
            Err(error) => stream_entry_at(old(reader).data@, old(reader).pos as int, header_type)
                == Err::<(FileView, int), _>(error),
        },
{
    let filename_len: u32 = reader.read_u32()?;
    let encoded_flags: u32 = reader.read_u32()?;
    reader.skip(2)?;
    let size: u32 = reader.read_u32()?;
    reader.skip(10)?;
    reader.skip(
        if header_type == 4 {
            24
        } else {
            0
        },
    )?;
    let raw = reader.read_exact(filename_len as usize)?;
    let name = if filename_len == 0 {
        String::new()
    } else {
        trim_matches(decode(Charset::Utf16Le, raw.as_slice()).as_str(), '\0')
    };
    assert(name@ =~= stream_name(raw@));
    let offset: u64 = reader.pos;
    reader.skip(size)?;
    Ok(File { name, encoded_flags, size, offset })
}

/// Reads the files of a plain overlay.
pub fn parse_plain_entries<'a>(reader: &mut Reader<'a>, count: u16) -> (r: Result<
    Vec<File>,
    InstallShieldError,
>)
    ensures
        final(reader).data@ == old(reader).data@,
        match entries_at(
            Kind::Plain,
            0,
            old(reader).data@,
            old(reader).pos as int,
            count as nat,
            Seq::empty(),
        ) {
            Ok(files) => r matches Ok(read) && file_views(read@) == files,
            Err(fault) => r == Err::<Vec<File>, _>(InstallShieldError::Io(fault)),
        },
{
    let mut files: Vec<File> = Vec::new();
    assert(file_views(files@) =~= Seq::empty());
    let mut left: u16 = count;
    while left > 0
        invariant
            reader.data@ == old(reader).data@,
            entries_at(
                Kind::Plain,
                0,
                old(reader).data@,
                old(reader).pos as int,
                count as nat,
                Seq::empty(),
            ) == entries_at(
                Kind::Plain,
                0,
                reader.data@,
                reader.pos as int,
                left as nat,
                file_views(files@),
            ),
        decreases left,
    {
        let ghost before = file_views(files@);
        let file = io(read_plain_entry(reader))?;
        files.push(file);
        left -= 1;
        assert(file_views(files@) =~= before.push(file@));
    }
    Ok(files)
}

/// Reads the files of a setup stream.
pub fn parse_stream_entries<'a>(reader: &mut Reader<'a>, count: u16, header_type: u32) -> (r: Result<
    Vec<File>,
    InstallShieldError,
>)
    ensures
        final(reader).data@ == old(reader).data@,
        match entries_at(
            Kind::SetupStream,
            header_type,
            old(reader).data@,
            old(reader).pos as int,
            count as nat,
            Seq::empty(),
        ) {
            Ok(files) => r matches Ok(read) && file_views(read@) == files,
            Err(fault) => r == Err::<Vec<File>, _>(InstallShieldError::Io(fault)),
        },
{
    let mut files: Vec<File> = Vec::new();
    assert(file_views(files@) =~= Seq::empty());
    let mut left: u16 = count;
    while left > 0
        invariant
            reader.data@ == old(reader).data@,
            entries_at(
                Kind::SetupStream,
                header_type,
                old(reader).data@,
                old(reader).pos as int,
                count as nat,
                Seq::empty(),
            ) == entries_at(
                Kind::SetupStream,
                header_type,
                reader.data@,
                reader.pos as int,
                left as nat,
                file_views(files@),
            ),
        decreases left,
    {
        let ghost before = file_views(files@);
        let file = io(read_stream_entry(reader, header_type))?;
        files.push(file);
        left -= 1;
        assert(file_views(files@) =~= before.push(file@));
    }
    Ok(files)
}

/// How an InstallScript overlay writes its texts.
#[derive(Clone, Copy, Debug, Eq, PartialEq, Structural)]
pub enum ScriptEncoding {
    Unicode,
    Ascii,
}

/// The text at a place, which a zero ends, and the place behind it.
pub open spec fn script_text_at(encoding: ScriptEncoding, data: Seq<u8>, at: int) -> Result<
    (Seq<char>, int),
    ReadError,
> {
    match encoding {
        ScriptEncoding::Ascii => match zero_ended_at(data, at) {
            Ok((bytes, next)) => Ok((lossy_text(bytes), next)),
            Err(error) => Err(error),
        },
        ScriptEncoding::Unicode => match zero_pair_ended_at(data, at) {
            Ok((bytes, next)) => Ok((charset_text(Charset::Utf16Le, bytes), next)),
            Err(error) => Err(error),
        },
    }
}

/// Reads a text that a zero byte ends.
pub fn read_ascii_strz<'a>(reader: &mut Reader<'a>) -> (r: Result<String, ReadError>)
    ensures
        final(reader).data@ == old(reader).data@,
        match r {
            Ok(text) => script_text_at(
                ScriptEncoding::Ascii,
                old(reader).data@,
                old(reader).pos as int,
            ) == Ok::<_, ReadError>((text@, final(reader).pos as int)),
            Err(error) => script_text_at(
                ScriptEncoding::Ascii,
                old(reader).data@,
                old(reader).pos as int,
            ) == Err::<(Seq<char>, int), _>(error),
        },
{
    let bytes = reader.read_zero_ended()?;
    Ok(from_utf8_lossy(bytes.as_slice()))
}

/// Reads a text of UTF-16 code units that a zero unit ends.
pub fn read_utf16le_strz<'a>(reader: &mut Reader<'a>) -> (r: Result<String, ReadError>)
    ensures
        final(reader).data@ == old(reader).data@,
        match r {
            Ok(text) => script_text_at(
                ScriptEncoding::Unicode,
                old(reader).data@,
                old(reader).pos as int,
            ) == Ok::<_, ReadError>((text@, final(reader).pos as int)),
            Err(error) => script_text_at(
                ScriptEncoding::Unicode,
                old(reader).data@,
                old(reader).pos as int,
            ) == Err::<(Seq<char>, int), _>(error),
        },
{
    let bytes = reader.read_zero_pair_ended()?;
    Ok(decode(Charset::Utf16Le, bytes.as_slice()))
}

/// Reads a text that a zero ends.
fn read_script_text<'a>(reader: &mut Reader<'a>, encoding: ScriptEncoding) -> (r: Result<
    String,
    ReadError,
>)
    ensures
        final(reader).data@ == old(reader).data@,
        match r {
            Ok(text) => script_text_at(encoding, old(reader).data@, old(reader).pos as int) == Ok::<
                _,
                ReadError,
            >((text@, final(reader).pos as int)),
            Err(error) => script_text_at(encoding, old(reader).data@, old(reader).pos as int)
                == Err::<(Seq<char>, int), _>(error),
        },
{
    match encoding {
        ScriptEncoding::Unicode => read_utf16le_strz(reader),
        ScriptEncoding::Ascii => read_ascii_strz(reader),
    }
}

/// The size that a text tells of.
pub open spec fn script_size(text: Seq<char>) -> nat {
    match number_value(text, 10, u32::MAX as nat) {
        Some(size) => size,
        None => 0,
    }
}

/// What of an entry follows its name: its path and version, which are passed over, and its size.
pub open spec fn script_rest_at(
    encoding: ScriptEncoding,
    data: Seq<u8>,
    at: int,
    name: Seq<char>,
) -> Result<(FileView, int), ReadError> {
    match script_text_at(encoding, data, at) {
        Err(error) => Err(error),
        Ok((_, version_at)) => match script_text_at(encoding, data, version_at) {
            Err(error) => Err(error),
            Ok((_, size_at)) => match script_text_at(encoding, data, size_at) {
                Err(error) => Err(error),
                Ok((size, start)) => file_at(name, 0, script_size(size), start),
            },
        },
    }
}

/// The entries of an InstallScript overlay from a place on, behind those that were there before.
/// They stop at a count, at the end of the overlay, or at one without a name.
pub open spec fn script_entries_at(
    encoding: ScriptEncoding,
    data: Seq<u8>,
    at: int,
    count: nat,
    end: int,
    files: Seq<FileView>,
) -> Result<Seq<FileView>, ReadError>
    decreases
            (if 0 <= at < data.len() {
                data.len() - at
            } else {
                0
            }),
{
    if files.len() >= count || at >= end || at < 0 {
        Ok(files)
    } else {
        match script_text_at(encoding, data, at) {
            Err(error) => Err(error),
            Ok((name, after)) => if name.len() == 0 || after > end {
                Ok(files)
            } else {
                match script_rest_at(encoding, data, after, name) {
                    Err(error) => Err(error),
                    Ok((file, next)) => {
                        proof {
                            lemma_script_rest(encoding, data, at, name);
                        }
                        script_entries_at(encoding, data, next, count, end, files.push(file))
                    },
                }
            },
        }
    }
}

proof fn lemma_script_text(encoding: ScriptEncoding, data: Seq<u8>, at: int)
    requires
        0 <= at,
    ensures
        script_text_at(encoding, data, at) matches Ok((_, next)) ==> at < next <= data.len(),
{
    lemma_zero_ended(data, at);
}

/// An entry moves the place along.
pub proof fn lemma_script_rest(encoding: ScriptEncoding, data: Seq<u8>, at: int, name: Seq<char>)
    requires
        0 <= at,
    ensures
        script_text_at(encoding, data, at) matches Ok((_, after)) ==> at < data.len() && (
        script_rest_at(encoding, data, after, name) matches Ok((_, next)) ==> at < next),
{
    lemma_script_text(encoding, data, at);
    if let Ok((_, after)) = script_text_at(encoding, data, at) {
        lemma_script_text(encoding, data, after);
        if let Ok((_, version_at)) = script_text_at(encoding, data, after) {
            lemma_script_text(encoding, data, version_at);
            if let Ok((_, size_at)) = script_text_at(encoding, data, version_at) {
                lemma_script_text(encoding, data, size_at);
            }
        }
    }
}

/// Reads the files of an InstallScript overlay, up to a count and up to its end.
pub fn parse_installscript_entries<'a>(
    reader: &mut Reader<'a>,
    count: u32,
    encoding: ScriptEncoding,
    end: u64,
) -> (r: Result<Vec<File>, InstallShieldError>)
    ensures
        final(reader).data@ == old(reader).data@,
        match script_entries_at(
            encoding,
            old(reader).data@,
            old(reader).pos as int,
            count as nat,
            end as int,
            Seq::empty(),
        ) {
            Ok(files) => r matches Ok(read) && file_views(read@) == files,
            Err(fault) => r == Err::<Vec<File>, _>(InstallShieldError::Io(fault)),
        },
{
    let mut files: Vec<File> = Vec::new();
    assert(file_views(files@) =~= Seq::empty());
    while files.len() < count as usize && reader.pos < end
        invariant
            reader.data@ == old(reader).data@,
            script_entries_at(
                encoding,
                old(reader).data@,
                old(reader).pos as int,
                count as nat,
                end as int,
                Seq::empty(),
            ) == script_entries_at(
                encoding,
                reader.data@,
                reader.pos as int,
                count as nat,
                end as int,
                file_views(files@),
            ),
        decreases
                (if reader.pos < reader.data@.len() {
                    reader.data@.len() - reader.pos
                } else {
                    0
                }),
    {
        let ghost before = file_views(files@);
        let ghost at = reader.pos as int;
        let name = io(read_script_text(reader, encoding))?;
        if name.as_str().unicode_len() == 0 || reader.pos > end {
            return Ok(files);
        }
        proof {
            lemma_script_rest(encoding, reader.data@, at, name@);
        }
        io(read_script_text(reader, encoding))?;
        io(read_script_text(reader, encoding))?;
        let text = io(read_script_text(reader, encoding))?;
        let size: u32 = match parse_number(text.as_str(), 10, u32::MAX) {
            Some(size) => size,
            None => 0,
        };
        let offset: u64 = reader.pos;
        io(reader.skip(size))?;
        let file = File { name, encoded_flags: 0, size, offset };
        files.push(file);
        assert(file_views(files@) =~= before.push(file@));
    }
    Ok(files)
}

/// An overlay that is too short to hold a header is not InstallShield's.
pub proof fn law_short_overlay(data: Seq<u8>, at: int)
    requires
        0 <= at,
        at + 16 <= u64::MAX,
        data.len() < at + 20,
    ensures
        header_at(data, at) == Err::<(Header, int), _>(InstallShieldError::NotInstallShieldFile),
{
    lemma_zero_ended(data, at + 16);
}

/// Whether each file lies behind the one before.
pub open spec fn files_follow(files: Seq<FileView>) -> bool {
    forall|i: int|
        0 < i < files.len() ==> (#[trigger] files[i]).offset >= files[i - 1].offset + files[i
            - 1].size
}

proof fn lemma_entry_at(kind: Kind, header_type: u32, data: Seq<u8>, at: int)
    requires
        0 <= at,
    ensures
        entry_at(kind, header_type, data, at) matches Ok((file, next)) ==> at <= file.offset && next
            == file.offset + file.size,
{
    match kind {
        Kind::Plain => {
            lemma_number_bound(data, at + 268);
        },
        Kind::SetupStream => {
            lemma_number_bound(data, at);
            lemma_number_bound(data, at + 10);
        },
    }
}

proof fn lemma_entries_follow(
    kind: Kind,
    header_type: u32,
    data: Seq<u8>,
    at: int,
    count: nat,
    files: Seq<FileView>,
)
    requires
        0 <= at,
        files_follow(files),
        files.len() > 0 ==> files.last().offset + files.last().size <= at,
    ensures
        entries_at(kind, header_type, data, at, count, files) matches Ok(all) ==> all.len()
            == files.len() + count && files_follow(all),
    decreases count,
{
    if count > 0 {
        lemma_entry_at(kind, header_type, data, at);
        match entry_at(kind, header_type, data, at) {
            Err(_) => {},
            Ok((file, next)) => {
                lemma_entries_follow(
                    kind,
                    header_type,
                    data,
                    next,
                    (count - 1) as nat,
                    files.push(file),
                );
            },
        }
    }
}

/// The entries of an overlay are as many as its header counts, in the order in which they lie in the
/// file, and none overlaps another.
pub proof fn law_entries(kind: Kind, header_type: u32, data: Seq<u8>, at: int, count: nat)
    requires
        0 <= at,
    ensures
        entries_at(kind, header_type, data, at, count, Seq::empty()) matches Ok(files)
            ==> files.len() == count && files_follow(files),
{
    lemma_entries_follow(kind, header_type, data, at, count, Seq::empty());
}

proof fn lemma_script_entries(
    encoding: ScriptEncoding,
    data: Seq<u8>,
    at: int,
    count: nat,
    end: int,
    files: Seq<FileView>,
)
    requires
        files.len() <= count,
    ensures
        script_entries_at(encoding, data, at, count, end, files) matches Ok(all) ==> all.len()
            <= count,
    decreases
            (if 0 <= at < data.len() {
                data.len() - at
            } else {
                0
            }),
{
    if !(files.len() >= count || at >= end || at < 0) {
        match script_text_at(encoding, data, at) {
            Err(_) => {},
            Ok((name, after)) => if !(name.len() == 0 || after > end) {
                match script_rest_at(encoding, data, after, name) {
                    Err(_) => {},
                    Ok((file, next)) => {
                        lemma_script_rest(encoding, data, at, name);
                        lemma_script_entries(encoding, data, next, count, end, files.push(file));
                    },
                }
            },
        }
    }
}

/// The entries of an InstallScript overlay are no more than the count.
pub proof fn law_script_entries(
    encoding: ScriptEncoding,
    data: Seq<u8>,
    at: int,
    count: nat,
    end: int,
)
    ensures
        script_entries_at(encoding, data, at, count, end, Seq::empty()) matches Ok(files)
            ==> files.len() <= count,
{
    lemma_script_entries(encoding, data, at, count, end, Seq::empty());
}

} // verus!
