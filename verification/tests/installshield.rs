//! InstallShield installers.
use std::io::Write;

use anthelion::installshield::entries::{
    parse_installscript_entries, parse_plain_entries, parse_stream_entries, Header,
    InstallShieldError, Kind, ScriptEncoding,
};
use anthelion::installshield::file::{decode_slice, decode_text, for_bom, Charset, File, FileError};
use anthelion::installshield::installer::{read_files, InstallShield, PeFacts};
use anthelion::installshield::read::{ReadError, Reader};
use anthelion::installshield::return_codes::expected_return_codes;
use anthelion::installshield::setup_ini::{self, SetupIni, Startup};
use anthelion::installshield::setup_iss::{Application, SetupIss};
use anthelion::installshield::setup_xml::{
    self, ArpInfo, Language, LanguageSelection, SetProperty, SetupXml,
};
use anthelion::manifest::{Architecture, InstallerType, ReturnResponse, Scope};

fn utf16(s: &str) -> Vec<u8> {
    s.encode_utf16().flat_map(|unit| unit.to_le_bytes()).collect()
}

/// What [`File::decode_contents`] takes back, with a key that starts anew every `chunk` bytes.
fn encode(name: &str, data: &[u8], chunk: usize) -> Vec<u8> {
    let magic = [0x13u8, 0x35, 0x86, 0x07];
    let key: Vec<u8> = name.bytes().enumerate().map(|(i, b)| b ^ magic[i % 4]).collect();
    data.iter()
        .enumerate()
        .map(|(i, byte)| (!byte ^ key[(i % chunk) % key.len()]).rotate_left(4))
        .collect()
}

fn deflate(data: &[u8]) -> Vec<u8> {
    let mut encoder = flate2::write::ZlibEncoder::new(Vec::new(), flate2::Compression::default());
    encoder.write_all(data).unwrap();
    encoder.finish().unwrap()
}

fn header(magic: &[u8; 14], num_files: u16, header_type: u32) -> Vec<u8> {
    let mut data = magic.to_vec();
    data.extend(num_files.to_le_bytes());
    data.extend(header_type.to_le_bytes());
    data.extend(vec![0u8; 26]);
    data
}

fn plain_entry(name: &str, flags: u32, contents: &[u8]) -> Vec<u8> {
    let mut data = name.as_bytes().to_vec();
    data.resize(260, 0);
    data.extend(flags.to_le_bytes());
    data.extend(vec![0u8; 4]);
    data.extend((contents.len() as u32).to_le_bytes());
    data.extend(vec![0u8; 40]);
    data.extend(contents);
    data
}

fn stream_entry(name: &str, flags: u32, attributes: bool, contents: &[u8]) -> Vec<u8> {
    let name = utf16(name);
    let mut data = (name.len() as u32).to_le_bytes().to_vec();
    data.extend(flags.to_le_bytes());
    data.extend(vec![0u8; 2]);
    data.extend((contents.len() as u32).to_le_bytes());
    data.extend(vec![0u8; 10]);
    if attributes {
        data.extend(vec![0u8; 24]);
    }
    data.extend(name);
    data.extend(contents);
    data
}

fn script_entry(encoding: ScriptEncoding, name: &str, size: &str, contents: &[u8]) -> Vec<u8> {
    let mut data = Vec::new();
    for part in vec![name, "path", "1.0", size] {
        match encoding {
            ScriptEncoding::Ascii => data.extend(part.bytes().chain([0])),
            ScriptEncoding::Unicode => data.extend(utf16(&format!("{part}\0"))),
        }
    }
    data.extend(contents);
    data
}

fn pe(overlay: Option<u64>, strings: Option<Vec<(&str, &str)>>) -> PeFacts {
    PeFacts {
        overlay_offset: overlay,
        certificate_address: None,
        version_strings: strings.map(|strings| {
            strings.into_iter().map(|(k, v)| (k.to_owned(), v.to_owned())).collect()
        }),
        architecture: Architecture::X86,
    }
}

fn startup() -> Startup {
    Startup {
        cmd_line: String::new(),
        script_driven: None,
        company_name: None,
        package_name: None,
        product: None,
        product_code: None,
        product_version: None,
        upgrade_code: None,
    }
}

fn ini(startup: Startup, language: &str) -> SetupIni {
    SetupIni { startup, languages: setup_ini::Languages { default: language.to_owned() } }
}

fn iss() -> SetupIss {
    SetupIss {
        application: Application {
            name: "Iss Name".to_owned(),
            version: " 3.0 ".to_owned(),
            company: "Iss Company".to_owned(),
        },
    }
}

fn xml(properties: Vec<(&str, Option<&str>)>) -> SetupXml {
    SetupXml {
        suite_id: "{SUITE}".to_owned(),
        arp_info: ArpInfo {
            version: "4.0".to_owned(),
            publisher: "ID_PUBLISHER".to_owned(),
            display_name: "Xml Name".to_owned(),
        },
        language_selection: LanguageSelection { default: "1031".to_owned() },
        languages: setup_xml::Languages {
            language: vec![
                Language {
                    lcid: "1033".to_owned(),
                    strings: vec![("ID_PUBLISHER".to_owned(), "English".to_owned())],
                },
                Language {
                    lcid: "1031".to_owned(),
                    strings: vec![("ID_PUBLISHER".to_owned(), "Deutsch".to_owned())],
                },
            ],
        },
        set_property: properties
            .into_iter()
            .map(|(name, value)| SetProperty {
                name: name.to_owned(),
                value: value.map(str::to_owned),
            })
            .collect(),
    }
}

fn shield(
    setup_ini: Option<SetupIni>,
    setup_iss: Option<SetupIss>,
    setup_xml: Option<SetupXml>,
) -> InstallShield {
    InstallShield { architecture: Architecture::X64, setup_ini, setup_iss, setup_xml }
}

#[test]
fn reads_headers() {
    let mut data = vec![9u8; 3];
    data.extend(header(b"InstallShield\0", 2, 7));
    let mut reader = Reader::new(&data, 3);
    assert_eq!(
        Header::read(&mut reader).unwrap(),
        Header { kind: Kind::Plain, num_files: 2, header_type: 7 }
    );
    assert_eq!(reader.pos, 49);

    let data = header(b"ISSetupStream\0", 1, 4);
    assert_eq!(Header::read(&mut Reader::new(&data, 0)).unwrap().kind, Kind::SetupStream);
}

#[test]
fn skips_debug_information() {
    let mut data = b"NB10".to_vec();
    data.extend(vec![1u8; 12]);
    data.extend(b"C:\\setup.pdb\0");
    data.extend(header(b"InstallShield\0", 0, 0));
    assert_eq!(Header::read(&mut Reader::new(&data, 0)).unwrap().kind, Kind::Plain);
}

#[test]
fn an_overlay_without_a_header_is_not_installshields() {
    let full = header(b"InstallShield\0", 0, 0);
    for len in 0..20 {
        assert!(matches!(
            Header::read(&mut Reader::new(&full[..len], 0)),
            Err(InstallShieldError::NotInstallShieldFile)
        ));
    }
    // The reserved bytes need not be there.
    assert!(Header::read(&mut Reader::new(&full[..20], 0)).is_ok());
    for magic in vec![b"InstallShields", b"installshield\0", b"\0nstallShield\0"] {
        let data = header(magic, 0, 0);
        assert!(matches!(
            Header::read(&mut Reader::new(&data, 0)),
            Err(InstallShieldError::NotInstallShieldFile)
        ));
    }
}

#[test]
fn lists_plain_entries() {
    let mut data = plain_entry("setup.ini", 0, b"[Startup]");
    data.extend(plain_entry("b.txt", 6, b"xy"));

    let files = parse_plain_entries(&mut Reader::new(&data, 0), 2).unwrap();

    assert_eq!(files.len(), 2);
    assert_eq!(files[0].name, "setup.ini");
    assert_eq!(files[0].size, 9);
    assert_eq!(files[0].offset, 312);
    assert_eq!(files[1].name, "b.txt");
    assert_eq!(files[1].encoded_flags, 6);
    assert_eq!(files[1].offset, 312 + 9 + 312);
    assert!(matches!(
        parse_plain_entries(&mut Reader::new(&data, 0), 3),
        Err(InstallShieldError::Io(ReadError::UnexpectedEof))
    ));
    assert!(parse_plain_entries(&mut Reader::new(&data, 0), 0).unwrap().is_empty());
}

#[test]
fn plain_names_end_at_a_zero() {
    let mut data = plain_entry("", 0, b"");
    data[..4].copy_from_slice(b"a\xFFb\0");
    assert_eq!(parse_plain_entries(&mut Reader::new(&data, 0), 1).unwrap()[0].name, "a\u{fffd}b");
    for byte in data[..260].iter_mut() {
        *byte = b'x';
    }
    assert_eq!(parse_plain_entries(&mut Reader::new(&data, 0), 1).unwrap()[0].name, "");
}

#[test]
fn lists_stream_entries() {
    for header_type in vec![0, 4] {
        let mut data = stream_entry("Setup.xml\0", 2, header_type == 4, b"abc");
        data.extend(stream_entry("", 0, header_type == 4, b"d"));

        let files =
            parse_stream_entries(&mut Reader::new(&data, 0), 2, header_type).unwrap();

        assert_eq!(files[0].name, "Setup.xml");
        assert_eq!(files[0].encoded_flags, 2);
        assert_eq!(files[0].size, 3);
        let start = files[0].offset as usize;
        assert_eq!(&data[start..start + 3], b"abc");
        assert_eq!(files[1].name, "");
        assert_eq!(data[files[1].offset as usize], b'd');
    }
}

#[test]
fn lists_script_entries() {
    for encoding in vec![ScriptEncoding::Ascii, ScriptEncoding::Unicode] {
        let mut data = script_entry(encoding, "setup.ini", "3", b"abc");
        data.extend(script_entry(encoding, "other", "?", b""));
        let end = data.len() as u64;

        let files =
            parse_installscript_entries(&mut Reader::new(&data, 0), u32::MAX, encoding, end)
                .unwrap();
        assert_eq!(files.len(), 2);
        assert_eq!(files[0].name, "setup.ini");
        assert_eq!(files[0].encoded_flags, 0);
        assert_eq!(files[0].size, 3);
        assert_eq!(files[1].name, "other");
        // A size that is no number is none.
        assert_eq!(files[1].size, 0);
        assert_eq!(files[1].offset, end);

        let counted =
            parse_installscript_entries(&mut Reader::new(&data, 0), 1, encoding, end).unwrap();
        assert_eq!(counted.len(), 1);

        // An empty name ends the list.
        let mut ended = data.clone();
        ended.extend(vec![0u8; 40]);
        let total = ended.len() as u64;
        let files =
            parse_installscript_entries(&mut Reader::new(&ended, 0), u32::MAX, encoding, total)
                .unwrap();
        assert_eq!(files.len(), 2);

        // A name that passes the end is none.
        let files =
            parse_installscript_entries(&mut Reader::new(&data, 0), u32::MAX, encoding, 4).unwrap();
        assert!(files.is_empty());
    }
}

#[test]
fn a_key_decodes_what_it_encoded() {
    let mut data = encode("k", b"hello", usize::MAX);
    let key = vec![b'k' ^ 0x13];
    decode_slice(&mut data, 0, 5, &key, 0);
    assert_eq!(data, b"hello");

    let mut data = vec![0x12, 0x34, 0x56];
    decode_slice(&mut data, 1, 3, &[0xFF, 0x00], 1);
    assert_eq!(data, vec![0x12, !0x43, !(0xFF ^ 0x65)]);

    // No key is needed where nothing is decoded.
    decode_slice(&mut data, 2, 2, &[], 0);
    assert_eq!(data, vec![0x12, !0x43, !(0xFF ^ 0x65)]);
}

#[test]
fn takes_back_the_encoding_of_files() {
    let contents: Vec<u8> = (0..3000u32).map(|i| (i * 7 % 251) as u8).collect();
    let file = |flags: u32| File {
        name: "setup.bin".to_owned(),
        encoded_flags: flags,
        size: 0,
        offset: 0,
    };
    let decode = |flags: u32, raw: Vec<u8>| file(flags).decode_contents(raw);

    assert!(decode(0, contents.clone()) == Some(contents.clone()));
    assert!(decode(1, contents.clone()) == Some(contents.clone()));
    let whole = encode("setup.bin", &contents, usize::MAX);
    assert!(decode(2, whole.clone()) == Some(contents.clone()));
    // With the other flag, or with both, the key starts anew in each chunk.
    let chunked = encode("setup.bin", &contents, 1024);
    assert!(whole != chunked);
    assert!(decode(4, chunked.clone()) == Some(contents.clone()));
    assert!(decode(6, chunked) == Some(contents.clone()));
    let unnamed = File { name: String::new(), encoded_flags: 2, size: 0, offset: 0 };
    assert_eq!(unnamed.decode_contents(contents), None);
}

#[test]
fn decompresses_what_was_encoded() {
    let contents = vec![b'x'; 5000];
    let read = |flags: u32, data: &[u8]| {
        let file = File {
            name: "setup.bin".to_owned(),
            encoded_flags: flags,
            size: data.len() as u32,
            offset: 0,
        };
        file.read(&mut Reader::new(data, 0)).unwrap()
    };
    let packed = deflate(&contents);

    assert!(read(2, &encode("setup.bin", &packed, usize::MAX)) == Some(contents.clone()));
    assert!(read(4, &encode("setup.bin", &packed, 1024)) == Some(contents.clone()));
    // What is no compressed stream stays.
    assert!(read(2, &encode("setup.bin", b"plain", usize::MAX)) == Some(b"plain".to_vec()));
    // What is not encoded is not decompressed either.
    assert!(read(0, &packed) == Some(packed));
}

#[test]
fn reads_files_at_their_offset() {
    let data = b"....abcdef".to_vec();
    let file = |size: u32, offset: u64| File { name: "f".to_owned(), encoded_flags: 0, size, offset };
    assert_eq!(file(3, 4).read(&mut Reader::new(&data, 0)).unwrap(), Some(b"abc".to_vec()));
    assert_eq!(file(0, 99).read(&mut Reader::new(&data, 0)).unwrap(), Some(Vec::new()));
    assert_eq!(
        file(7, 4).read(&mut Reader::new(&data, 0)),
        Err(FileError::Io(ReadError::UnexpectedEof))
    );
    assert_eq!(
        file(6, 4).read_text(&mut Reader::new(&data, 0)).unwrap(),
        Some("abcdef".to_owned())
    );
}

#[test]
fn decodes_texts() {
    assert_eq!(decode_text(&"grün".as_bytes().to_vec()), "grün");
    assert_eq!(decode_text(&b"\xEF\xBB\xBFgr\xC3\xBCn".to_vec()), "grün");
    let mut marked = vec![0xFF, 0xFE];
    marked.extend(utf16("grün"));
    assert_eq!(decode_text(&marked), "grün");
    assert_eq!(decode_text(&vec![0xFE, 0xFF, 0x00, 0x67, 0x00, 0xFC]), "gü");
    // What is no UTF-8 is UTF-16.
    assert_eq!(decode_text(&utf16("grün")), "grün");
    assert_eq!(for_bom(&[0xEF, 0xBB, 0xBF, 1]), Some((Charset::Utf8, 3)));
    assert_eq!(for_bom(&[0xFF, 0xFE]), Some((Charset::Utf16Le, 2)));
    assert_eq!(for_bom(&[0xFE, 0xFF]), Some((Charset::Utf16Be, 2)));
    assert_eq!(for_bom(&[0xEF, 0xBB]), None);
}

#[test]
fn finds_embedded_files_by_the_version_information() {
    let names = |data: &[u8], pe: &PeFacts| -> Vec<String> {
        read_files(data, pe).unwrap().into_iter().map(|file| file.name).collect()
    };

    let mut data = vec![0u8; 8];
    data.extend(header(b"InstallShield\0", 1, 0));
    data.extend(plain_entry("plain", 0, b""));
    assert_eq!(names(&data, &pe(Some(8), None)), vec!["plain"]);
    assert_eq!(names(&data, &pe(Some(8), Some(vec![("ProductName", "Other")]))), vec!["plain"]);

    let mut data = vec![0u8; 8];
    data.extend(script_entry(ScriptEncoding::Ascii, "ascii", "0", b""));
    for name in vec!["InstallShield", "InstallShield (R)"] {
        assert_eq!(names(&data, &pe(Some(8), Some(vec![("ProductName", name)]))), vec!["ascii"]);
    }

    let mut data = vec![0u8; 8];
    data.extend(1u32.to_le_bytes());
    data.extend(script_entry(ScriptEncoding::Unicode, "unicode", "0", b""));
    let strings = vec![
        ("ProductName", "InstallShield"),
        ("ISInternalDescription", "InstallScript Setup Launcher Unicode"),
    ];
    assert_eq!(names(&data, &pe(Some(8), Some(strings))), vec!["unicode"]);

    assert!(matches!(
        read_files(&data, &pe(None, None)),
        Err(InstallShieldError::NotInstallShieldFile)
    ));
}

#[test]
fn certificates_end_the_overlay() {
    let mut data = vec![0u8; 8];
    data.extend(script_entry(ScriptEncoding::Ascii, "a", "0", b""));
    let certificates = data.len() as u32;
    data.extend(script_entry(ScriptEncoding::Ascii, "signature", "0", b""));
    let mut facts = pe(Some(8), Some(vec![("ProductName", "InstallShield")]));
    assert_eq!(read_files(&data, &facts).unwrap().len(), 2);
    facts.certificate_address = Some(certificates);
    assert_eq!(read_files(&data, &facts).unwrap().len(), 1);
    facts.certificate_address = Some(8);
    assert_eq!(read_files(&data, &facts).unwrap().len(), 2);
}

#[test]
fn reads_the_last_setup_files() {
    let mut data = header(b"InstallShield\0", 3, 0);
    data.extend(plain_entry("setup.INI", 0, b"first"));
    data.extend(plain_entry("SETUP.ini", 2, &encode("SETUP.ini", &deflate(b"second"), usize::MAX)));
    data.extend(plain_entry("Setup.xml", 0, b"bad"));

    let shield = InstallShield::new(
        &data,
        &pe(Some(0), None),
        |content: &str| {
            let mut startup = startup();
            startup.cmd_line = content.to_owned();
            Some(ini(startup, "0x0409"))
        },
        |_: &str| -> Option<SetupIss> { panic!("there is no setup.iss") },
        |_: &str| None,
    )
    .unwrap();

    assert_eq!(shield.architecture, Architecture::X86);
    assert_eq!(shield.setup_ini.unwrap().startup.cmd_line, "second");
    assert!(shield.setup_iss.is_none());
    assert!(shield.setup_xml.is_none());

    let refused = InstallShield::new(
        &data,
        &pe(Some(0), None),
        |_: &str| None,
        |_: &str| None,
        |_: &str| None,
    );
    assert!(matches!(refused, Err(InstallShieldError::NotInstallShieldFile)));
}

#[test]
fn describes_an_msi_based_installer() {
    let mut startup = startup();
    startup.script_driven = Some("0".to_owned());
    startup.company_name = Some("Company".to_owned());
    startup.product = Some("Product".to_owned());
    startup.product_code = Some("{CODE}".to_owned());
    startup.product_version = Some("1.2".to_owned());
    startup.upgrade_code = Some("{UPGRADE}".to_owned());

    let installers = shield(Some(ini(startup, "0x0409")), Some(iss()), None).installers();

    assert_eq!(installers.len(), 1);
    let installer = &installers[0];
    assert_eq!(installer.locale, Some("en-US".to_owned()));
    assert_eq!(installer.architecture, Architecture::X64);
    assert_eq!(installer.installer_type, Some(InstallerType::Exe));
    assert_eq!(installer.scope, Some(Scope::Machine));
    assert_eq!(installer.product_code, Some("{CODE}".to_owned()));
    assert_eq!(installer.install_location, None);
    assert!(installer.all_install_modes);
    let entry = &installer.apps_and_features_entries[0];
    assert_eq!(entry.display_name, Some("Product".to_owned()));
    assert_eq!(entry.publisher, Some("Company".to_owned()));
    assert_eq!(entry.display_version, Some("1.2".to_owned()));
    assert_eq!(entry.product_code, Some("{CODE}".to_owned()));
    assert_eq!(entry.upgrade_code, Some("{UPGRADE}".to_owned()));
    assert_eq!(installer.switches.silent, Some("/s /v\"/qn /norestart\"".to_owned()));
    assert_eq!(installer.switches.silent_with_progress, Some("/s /v\"/qb /norestart\"".to_owned()));
    assert_eq!(
        installer.switches.install_location,
        Some("/v\"INSTALLDIR=\"\"<INSTALLPATH>\"\"\"".to_owned())
    );
    assert_eq!(installer.switches.log, Some("/v\"/log \"\"<LOGPATH>\"\"\"".to_owned()));
    assert_eq!(installer.switches.repair, None);
    assert_eq!(installer.expected_return_codes, expected_return_codes(true));
}

#[test]
fn describes_a_script_installer() {
    let code = |driven: Option<&str>| {
        let mut startup = startup();
        startup.script_driven = driven.map(str::to_owned);
        startup.product_code = Some("C".to_owned());
        shield(Some(ini(startup, "x")), None, None).installers().remove(0).product_code.unwrap()
    };
    assert_eq!(code(Some("0")), "C");
    assert_eq!(code(Some("2")), "C");
    assert_eq!(code(Some("4")), "{C}");
    assert_eq!(code(Some("1")), "InstallShield_C");
    assert_eq!(code(None), "InstallShield_C");

    let installer = shield(Some(ini(startup(), "zz")), Some(iss()), None).installers().remove(0);
    assert_eq!(installer.locale, None);
    assert_eq!(installer.product_code, None);
    let entry = &installer.apps_and_features_entries[0];
    assert_eq!(entry.display_name, Some("Iss Name".to_owned()));
    assert_eq!(entry.publisher, Some("Iss Company".to_owned()));
    assert_eq!(entry.display_version, Some("3.0".to_owned()));
    assert_eq!(installer.switches.silent, Some("/s".to_owned()));
    assert_eq!(installer.switches.silent_with_progress, Some("/s".to_owned()));
    assert_eq!(installer.switches.log, None);
    assert_eq!(installer.expected_return_codes, expected_return_codes(false));
}

#[test]
fn describes_a_suite() {
    let installer = shield(
        None,
        None,
        Some(xml(vec![
            ("ProductName", Some("Named")),
            ("UpgradeCode", Some("{U}")),
            ("INSTALLDIR", Some("[ProgramFiles64Folder]\\Company")),
        ])),
    )
    .installers()
    .remove(0);

    assert_eq!(installer.locale, Some("de-DE".to_owned()));
    assert_eq!(installer.product_code, Some("{SUITE}".to_owned()));
    assert_eq!(installer.install_location, Some("%ProgramFiles%\\Company".to_owned()));
    assert_eq!(installer.scope, Some(Scope::Machine));
    let entry = &installer.apps_and_features_entries[0];
    assert_eq!(entry.display_name, Some("Xml Name".to_owned()));
    assert_eq!(entry.publisher, Some("Deutsch".to_owned()));
    assert_eq!(entry.display_version, Some("4.0".to_owned()));
    assert_eq!(entry.upgrade_code, Some("{U}".to_owned()));
    assert_eq!(installer.switches.silent, Some("/silent".to_owned()));
    assert_eq!(installer.switches.silent_with_progress, Some("/passive".to_owned()));
    assert_eq!(installer.switches.log, Some("/log \"<LOGPATH>\"".to_owned()));
    assert_eq!(installer.switches.repair, Some("/repair".to_owned()));

    let mut user = xml(vec![("ProductCode", Some("{P}")), ("INSTALLDIR", Some("%LocalAppData%\\X"))]);
    user.language_selection.default = "1036".to_owned();
    let installer = shield(None, None, Some(user)).installers().remove(0);
    assert_eq!(installer.scope, Some(Scope::User));
    assert_eq!(installer.product_code, Some("{P}".to_owned()));
    // No language has the default number: the publisher stands as it is.
    assert_eq!(
        installer.apps_and_features_entries[0].publisher,
        Some("ID_PUBLISHER".to_owned())
    );
}

#[test]
fn finds_properties_by_name() {
    let xml = xml(vec![("A", None), ("A", Some("later")), ("B", Some("b"))]);
    // The first property with the name counts, though it has no value.
    assert_eq!(xml.get_property("A"), None);
    assert_eq!(xml.get_property("B"), Some("b".to_owned()));
    assert_eq!(xml.get_property("b"), None);
}

#[test]
fn lists_return_codes_in_order() {
    let common = expected_return_codes(false);
    assert_eq!(
        common,
        vec![
            (-1, ReturnResponse::CancelledByUser),
            (1, ReturnResponse::InvalidParameter),
            (1150, ReturnResponse::SystemNotSupported),
            (1201, ReturnResponse::DiskFull),
            (1203, ReturnResponse::InvalidParameter),
            (3010, ReturnResponse::RebootRequiredToFinish),
        ]
    );
    let all = expected_return_codes(true);
    assert_eq!(all.len(), 22);
    for (code, response) in common {
        assert!(all.contains(&(code, response)));
    }
    for pair in all.windows(2) {
        assert!(pair[0].0 < pair[1].0);
    }
    assert!(all.contains(&(1641, ReturnResponse::RebootInitiated)));
    assert!(all.contains(&(1618, ReturnResponse::InstallInProgress)));
}
