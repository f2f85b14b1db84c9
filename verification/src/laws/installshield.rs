//! InstallShield installers: what they tell a manifest, told by the setup files.
use vstd::prelude::*;

use crate::installshield::installer::{
    describes, last_named, overlay_end, parsed, script_encoding, switches_are, InstallShield,
};
use crate::installshield::entries::ScriptEncoding;
use crate::installshield::file::FileView;
use crate::installshield::return_codes::return_codes;
use crate::installshield::setup_xml::{
    language_strings, named_text, property, Language, SetProperty, SetupXml,
};
use crate::manifest::{Installer, InstallerType, ReturnResponse, Scope, Switches};
use crate::number::number_value;
use crate::search::{lower_text, replaced, stripped_front};
use crate::text::{opt_text, trimmed};
use crate::winget::{directory_scope, language_tag, windows_language};

verus! {

/// Whether `setup.ini` says how the installer is driven, and says so.
pub open spec fn says_driven(of: InstallShield, number: Seq<char>) -> bool {
    match of.setup_ini {
        Some(ini) => match ini.startup.script_driven {
            Some(driven) => driven@ == number,
            None => false,
        },
        None => false,
    }
}

/// Whether a text is the first of those that `setup.ini`, `setup.iss` and `Setup.xml` hold, in this
/// order.
pub open spec fn is_first_held(
    text: Option<Seq<char>>,
    ini: Option<Seq<char>>,
    iss: Option<Seq<char>>,
    xml: Option<Seq<char>>,
) -> bool {
    match (ini, iss, xml) {
        (Some(held), _, _) => text == Some(held),
        (None, Some(held), _) => text == Some(held),
        (None, None, Some(held)) => text == Some(held),
        (None, None, None) => text is None,
    }
}

/// The display version of the one entry is the `ProductVersion` of `setup.ini` wherever it has one,
/// whatever else there is; only where it has none does `setup.iss` count, and only then `Setup.xml`. It
/// stands without the white space around it.
pub proof fn law_display_version(installer: Installer, of: InstallShield)
    requires
        describes(installer, of),
    ensures
        installer.apps_and_features_entries@.len() == 1,
        is_first_held(
            opt_text(installer.apps_and_features_entries@[0].display_version),
            match of.setup_ini {
                Some(ini) => match ini.startup.product_version {
                    Some(version) => Some(trimmed(version@)),
                    None => None,
                },
                None => None,
            },
            match of.setup_iss {
                Some(iss) => Some(trimmed(iss.application.version@)),
                None => None,
            },
            match of.setup_xml {
                Some(xml) => Some(trimmed(xml.arp_info.version@)),
                None => None,
            },
        ),
{
}

/// The display name of the one entry is the product of `setup.ini`, or else the name of `setup.iss`, or
/// else the display name of `Setup.xml`.
pub proof fn law_display_name(installer: Installer, of: InstallShield)
    requires
        describes(installer, of),
    ensures
        is_first_held(
            opt_text(installer.apps_and_features_entries@[0].display_name),
            match of.setup_ini {
                Some(ini) => opt_text(ini.startup.product),
                None => None,
            },
            match of.setup_iss {
                Some(iss) => Some(iss.application.name@),
                None => None,
            },
            match of.setup_xml {
                Some(xml) => Some(xml.arp_info.display_name@),
                None => None,
            },
        ),
{
}

/// The publisher of the one entry is the company of `setup.ini`, or else that of `setup.iss`, or else
/// that of `Setup.xml`: the text that its default language has under the publisher's name, or that name.
pub proof fn law_publisher(installer: Installer, of: InstallShield)
    requires
        describes(installer, of),
    ensures
        is_first_held(
            opt_text(installer.apps_and_features_entries@[0].publisher),
            match of.setup_ini {
                Some(ini) => opt_text(ini.startup.company_name),
                None => None,
            },
            match of.setup_iss {
                Some(iss) => Some(iss.application.company@),
                None => None,
            },
            match of.setup_xml {
                Some(xml) => Some(localized_publisher(xml)),
                None => None,
            },
        ),
{
}

/// The publisher of a `Setup.xml` in its default language.
pub open spec fn localized_publisher(xml: SetupXml) -> Seq<char> {
    let name = xml.arp_info.publisher@;
    match language_strings(xml.languages.language@, xml.language_selection.default@) {
        Some(strings) if named_text(strings, name) is Some => named_text(strings, name).unwrap(),
        _ => name,
    }
}

/// The publisher that a `Setup.xml` tells is the text that its default language has under its name, or that
/// name where the language has none.
pub proof fn law_publisher_text(xml: SetupXml)
    ensures
        xml.publisher_text() == localized_publisher(xml),
{
}

/// The product code is that of `setup.ini` wherever it has one: as it is where the installer is driven
/// by MSI, in braces where it is a suite, and behind a prefix where it is driven by a script. Else it is
/// the `ProductCode` of `Setup.xml`, or the number of the suite. The installer and its one entry have the
/// same.
pub proof fn law_product_code(installer: Installer, of: InstallShield)
    requires
        describes(installer, of),
    ensures
        opt_text(installer.product_code) == opt_text(
            installer.apps_and_features_entries@[0].product_code,
        ),
        ({
            let code = opt_text(installer.product_code);
            match (of.setup_ini, of.setup_xml) {
                (Some(ini), _) if ini.startup.product_code is Some => {
                    let given = ini.startup.product_code.unwrap()@;
                    if says_driven(of, "0"@) || says_driven(of, "2"@) {
                        code == Some(given)
                    } else if says_driven(of, "4"@) {
                        code == Some("{"@ + given + "}"@)
                    } else {
                        code == Some("InstallShield_"@ + given)
                    }
                },
                (_, Some(xml)) => match property(xml.set_property@, "ProductCode"@) {
                    Some(given) => code == Some(given),
                    None => code == Some(xml.suite_id@),
                },
                (_, None) => code is None,
            }
        }),
{
}

/// The upgrade code of the one entry is that of `setup.ini`, or else the `UpgradeCode` of `Setup.xml`.
pub proof fn law_upgrade_code(installer: Installer, of: InstallShield)
    requires
        describes(installer, of),
    ensures
        is_first_held(
            opt_text(installer.apps_and_features_entries@[0].upgrade_code),
            match of.setup_ini {
                Some(ini) => opt_text(ini.startup.upgrade_code),
                None => None,
            },
            None,
            match of.setup_xml {
                Some(xml) => property(xml.set_property@, "UpgradeCode"@),
                None => None,
            },
        ),
{
}

/// The product is installed where the `INSTALLDIR` of `Setup.xml` says, with the folder of 64-bit programs
/// written as an environment variable. The scope is the one that the directory tells of, and that of the
/// machine where it tells of none.
pub proof fn law_install_location(installer: Installer, of: InstallShield)
    requires
        describes(installer, of),
    ensures
        match of.setup_xml {
            None => installer.install_location is None && installer.scope == Some(Scope::Machine),
            Some(xml) => match property(xml.set_property@, "INSTALLDIR"@) {
                None => installer.install_location is None && installer.scope == Some(Scope::Machine),
                Some(value) => {
                    let path = replaced(value, "[ProgramFiles64Folder]"@, "%ProgramFiles%"@);
                    &&& opt_text(installer.install_location) == Some(path)
                    &&& match directory_scope(path) {
                        Some(scope) => installer.scope == Some(scope),
                        None => installer.scope == Some(Scope::Machine),
                    }
                },
            },
        },
{
}

/// The locale is that of the default language of `setup.ini`, a hexadecimal number that may start with
/// `0x`; only where that is no number does the default language of `Setup.xml` count, a decimal one.
pub proof fn law_locale(installer: Installer, of: InstallShield)
    requires
        describes(installer, of),
    ensures
        ({
            let from_ini = match of.setup_ini {
                Some(ini) => number_value(stripped_front(ini.languages.default@, "0x"@), 16, 0xFFFF),
                None => None,
            };
            let from_xml = match of.setup_xml {
                Some(xml) => number_value(xml.language_selection.default@, 10, 0xFFFF),
                None => None,
            };
            match (from_ini, from_xml) {
                (Some(id), _) => opt_text(installer.locale) == language_tag(
                    windows_language(id as u16),
                ),
                (None, Some(id)) => opt_text(installer.locale) == language_tag(
                    windows_language(id as u16),
                ),
                (None, None) => installer.locale is None,
            }
        }),
{
}

/// An InstallShield installer is an executable for the architecture that was found, which supports every
/// install mode; nothing is told of nested files, of its URL, its hash or its date, and of the type of its
/// entry.
pub proof fn law_bare_installer(installer: Installer, of: InstallShield)
    requires
        describes(installer, of),
    ensures
        installer.architecture == of.architecture,
        installer.installer_type == Some(InstallerType::Exe),
        installer.nested_installer_type is None,
        installer.nested_installer_files@.len() == 0,
        installer.url@.len() == 0,
        installer.sha_256@.len() == 0,
        installer.release_date is None,
        installer.all_install_modes,
        installer.apps_and_features_entries@[0].installer_type is None,
{
}

/// The switches of an installer: those of a suite where there is a `Setup.xml`; else, where it is driven
/// by MSI, those that hand arguments on to MSI; else the one that all others take.
pub proof fn law_switches(installer: Installer, of: InstallShield)
    requires
        describes(installer, of),
    ensures
        of.setup_xml is Some ==> {
            &&& opt_text(installer.switches.silent) == Some("/silent"@)
            &&& opt_text(installer.switches.silent_with_progress) == Some("/passive"@)
            &&& installer.switches.install_location is None
            &&& opt_text(installer.switches.log) == Some("/log \"<LOGPATH>\""@)
            &&& opt_text(installer.switches.repair) == Some("/repair"@)
        },
        of.setup_xml is None && (says_driven(of, "0"@) || says_driven(of, "2"@)) ==> {
            &&& opt_text(installer.switches.silent) == Some("/s /v\"/qn /norestart\""@)
            &&& opt_text(installer.switches.silent_with_progress) == Some(
                "/s /v\"/qb /norestart\""@,
            )
            &&& opt_text(installer.switches.install_location) == Some(
                "/v\"INSTALLDIR=\"\"<INSTALLPATH>\"\"\""@,
            )
            &&& opt_text(installer.switches.log) == Some("/v\"/log \"\"<LOGPATH>\"\"\""@)
            &&& installer.switches.repair is None
        },
        of.setup_xml is None && !says_driven(of, "0"@) && !says_driven(of, "2"@) ==> {
            &&& opt_text(installer.switches.silent) == Some("/s"@)
            &&& opt_text(installer.switches.silent_with_progress) == Some("/s"@)
            &&& installer.switches.install_location is None
            &&& installer.switches.log is None
            &&& installer.switches.repair is None
        },
{
}

/// The return codes of an installer: six that every installer may return, and, where it is driven by MSI,
/// sixteen of MSI besides, in ascending order.
pub proof fn law_expected_return_codes(installer: Installer, of: InstallShield)
    requires
        describes(installer, of),
    ensures
        ({
            let codes = installer.expected_return_codes@;
            let msi = says_driven(of, "0"@) || says_driven(of, "2"@);
            let from = if msi {
                21int
            } else {
                5int
            };
            &&& codes.len() == from + 1
            &&& codes[0] == (-1i32, ReturnResponse::CancelledByUser)
            &&& codes[1] == (1i32, ReturnResponse::InvalidParameter)
            &&& codes[2] == (1150i32, ReturnResponse::SystemNotSupported)
            &&& codes[3] == (1201i32, ReturnResponse::DiskFull)
            &&& codes[4] == (1203i32, ReturnResponse::InvalidParameter)
            &&& codes[from] == (3010i32, ReturnResponse::RebootRequiredToFinish)
            &&& msi ==> {
                &&& codes[5] == (1601i32, ReturnResponse::ContactSupport)
                &&& codes[6] == (1602i32, ReturnResponse::CancelledByUser)
                &&& codes[7] == (1618i32, ReturnResponse::InstallInProgress)
                &&& codes[8] == (1623i32, ReturnResponse::SystemNotSupported)
                &&& codes[9] == (1625i32, ReturnResponse::BlockedByPolicy)
                &&& codes[10] == (1628i32, ReturnResponse::InvalidParameter)
                &&& codes[11] == (1633i32, ReturnResponse::SystemNotSupported)
                &&& codes[12] == (1638i32, ReturnResponse::AlreadyInstalled)
                &&& codes[13] == (1639i32, ReturnResponse::InvalidParameter)
                &&& codes[14] == (1640i32, ReturnResponse::BlockedByPolicy)
                &&& codes[15] == (1641i32, ReturnResponse::RebootInitiated)
                &&& codes[16] == (1643i32, ReturnResponse::BlockedByPolicy)
                &&& codes[17] == (1644i32, ReturnResponse::BlockedByPolicy)
                &&& codes[18] == (1649i32, ReturnResponse::BlockedByPolicy)
                &&& codes[19] == (1650i32, ReturnResponse::InvalidParameter)
                &&& codes[20] == (1654i32, ReturnResponse::SystemNotSupported)
            }
        }),
{
}

/// The value of a property is that of the first one with the name; there is none where no property has
/// the name.
pub proof fn law_property(properties: Seq<SetProperty>, name: Seq<char>)
    ensures
        match property(properties, name) {
            Some(value) => exists|i: int|
                0 <= i < properties.len() && (#[trigger] properties[i]).name@ == name && opt_text(
                    properties[i].value,
                ) == Some(value) && forall|k: int|
                    0 <= k < i ==> (#[trigger] properties[k]).name@ != name,
            None => (forall|i: int|
                0 <= i < properties.len() ==> (#[trigger] properties[i]).name@ != name) || exists|
                i: int,
            |
                0 <= i < properties.len() && (#[trigger] properties[i]).name@ == name
                    && properties[i].value is None && forall|k: int|
                    0 <= k < i ==> (#[trigger] properties[k]).name@ != name,
        },
    decreases properties.len(),
{
    if properties.len() > 0 {
        if properties[0].name@ == name {
            assert(properties[0].name@ == name);
        } else {
            let rest = properties.drop_first();
            law_property(rest, name);
            if forall|i: int| 0 <= i < rest.len() ==> (#[trigger] rest[i]).name@ != name {
                assert forall|k: int| 0 <= k < properties.len() implies (
                #[trigger] properties[k]).name@ != name by {
                    if k > 0 {
                        assert(properties[k] == rest[k - 1]);
                    }
                }
            } else {
                let i = choose|i: int|
                    0 <= i < rest.len() && (#[trigger] rest[i]).name@ == name && opt_text(
                        rest[i].value,
                    ) == property(rest, name) && forall|k: int|
                        0 <= k < i ==> (#[trigger] rest[k]).name@ != name;
                assert(properties[i + 1] == rest[i]);
                assert forall|k: int| 0 <= k < i + 1 implies (#[trigger] properties[k]).name@
                    != name by {
                    if k > 0 {
                        assert(properties[k] == rest[k - 1]);
                    }
                }
            }
        }
    }
}

/// The first text with a name is found, and nothing where there is none.
pub proof fn law_named_text(strings: Seq<(String, String)>, name: Seq<char>)
    ensures
        match named_text(strings, name) {
            Some(text) => exists|i: int|
                0 <= i < strings.len() && (#[trigger] strings[i]).0@ == name && strings[i].1@ == text
                    && forall|k: int| 0 <= k < i ==> (#[trigger] strings[k]).0@ != name,
            None => forall|i: int| 0 <= i < strings.len() ==> (#[trigger] strings[i]).0@ != name,
        },
    decreases strings.len(),
{
    if strings.len() > 0 {
        if strings[0].0@ == name {
            assert(strings[0].0@ == name);
        } else {
            let rest = strings.drop_first();
            law_named_text(rest, name);
            match named_text(rest, name) {
                Some(text) => {
                    let i = choose|i: int|
                        0 <= i < rest.len() && (#[trigger] rest[i]).0@ == name && rest[i].1@ == text
                            && forall|k: int| 0 <= k < i ==> (#[trigger] rest[k]).0@ != name;
                    assert(strings[i + 1] == rest[i]);
                    assert forall|k: int| 0 <= k < i + 1 implies (#[trigger] strings[k]).0@
                        != name by {
                        if k > 0 {
                            assert(strings[k] == rest[k - 1]);
                        }
                    }
                },
                None => {
                    assert forall|k: int| 0 <= k < strings.len() implies (#[trigger] strings[k]).0@
                        != name by {
                        if k > 0 {
                            assert(strings[k] == rest[k - 1]);
                        }
                    }
                },
            }
        }
    }
}

/// The texts of the first language with a number are found, and nothing where there is none.
pub proof fn law_language_strings(languages: Seq<Language>, lcid: Seq<char>)
    ensures
        match language_strings(languages, lcid) {
            Some(strings) => exists|i: int|
                0 <= i < languages.len() && (#[trigger] languages[i]).lcid@ == lcid
                    && languages[i].strings@ == strings && forall|k: int|
                    0 <= k < i ==> (#[trigger] languages[k]).lcid@ != lcid,
            None => forall|i: int|
                0 <= i < languages.len() ==> (#[trigger] languages[i]).lcid@ != lcid,
        },
    decreases languages.len(),
{
    if languages.len() > 0 {
        if languages[0].lcid@ == lcid {
            assert(languages[0].lcid@ == lcid);
        } else {
            let rest = languages.drop_first();
            law_language_strings(rest, lcid);
            match language_strings(rest, lcid) {
                Some(strings) => {
                    let i = choose|i: int|
                        0 <= i < rest.len() && (#[trigger] rest[i]).lcid@ == lcid && rest[i].strings@
                            == strings && forall|k: int|
                            0 <= k < i ==> (#[trigger] rest[k]).lcid@ != lcid;
                    assert(languages[i + 1] == rest[i]);
                    assert forall|k: int| 0 <= k < i + 1 implies (#[trigger] languages[k]).lcid@
                        != lcid by {
                        if k > 0 {
                            assert(languages[k] == rest[k - 1]);
                        }
                    }
                },
                None => {
                    assert forall|k: int| 0 <= k < languages.len() implies (
                    #[trigger] languages[k]).lcid@ != lcid by {
                        if k > 0 {
                            assert(languages[k] == rest[k - 1]);
                        }
                    }
                },
            }
        }
    }
}

/// An InstallScript installer is known by its version information: by the start of its description, and
/// else by its product name, which tells how its texts are written.
pub proof fn law_script_encoding(strings: Vec<(String, String)>)
    ensures
        script_encoding(None) is None,
        ({
            let encoding = script_encoding(Some(strings));
            let described = named_text(strings@, "ISInternalDescription"@) matches Some(text)
                && "InstallScript"@.is_prefix_of(text);
            let product = named_text(strings@, "ProductName"@);
            let named = product == Some("InstallShield (R)"@) || product == Some("InstallShield"@);
            &&& encoding == Some(ScriptEncoding::Unicode) <==> described
            &&& encoding == Some(ScriptEncoding::Ascii) <==> !described && named
            &&& encoding is None <==> !described && !named
        }),
{
}

/// An overlay ends at the certificates where they lie behind its start, and else with the file.
pub proof fn law_overlay_end(data: Seq<u8>, overlay: u64, certificate: u32)
    ensures
        overlay_end(data, overlay, None) == data.len(),
        certificate > overlay ==> overlay_end(data, overlay, Some(certificate)) == certificate,
        certificate <= overlay ==> overlay_end(data, overlay, Some(certificate)) == data.len(),
{
}

/// Of the files with a name, the case of letters ignored, the last is found.
pub proof fn law_last_named(files: Seq<FileView>, name: Seq<char>)
    ensures
        match last_named(files, name) {
            Some(file) => exists|i: int|
                0 <= i < files.len() && #[trigger] files[i] == file && lower_text(files[i].name)
                    == lower_text(name) && forall|k: int|
                    i < k < files.len() ==> lower_text((#[trigger] files[k]).name) != lower_text(name),
            None => forall|i: int|
                0 <= i < files.len() ==> lower_text((#[trigger] files[i]).name) != lower_text(name),
        },
    decreases files.len(),
{
    if files.len() > 0 {
        let before = files.drop_last();
        let last = files.len() - 1;
        law_last_named(before, name);
        assert forall|k: int| 0 <= k < before.len() implies before[k] == #[trigger] files[k] by {}
        if lower_text(files[last].name) == lower_text(name) {
            assert(files[last] == files.last());
        } else {
            match last_named(before, name) {
                Some(file) => {
                    let i = choose|i: int|
                        0 <= i < before.len() && #[trigger] before[i] == file && lower_text(
                            before[i].name,
                        ) == lower_text(name) && forall|k: int|
                            i < k < before.len() ==> lower_text((#[trigger] before[k]).name)
                                != lower_text(name);
                    assert(files[i] == file);
                    assert forall|k: int| i < k < files.len() implies lower_text(
                        (#[trigger] files[k]).name,
                    ) != lower_text(name) by {
                        if k < last {
                            assert(files[k] == before[k]);
                        }
                    }
                },
                None => {
                    assert forall|k: int| 0 <= k < files.len() implies lower_text(
                        (#[trigger] files[k]).name,
                    ) != lower_text(name) by {
                        if k < last {
                            assert(files[k] == before[k]);
                        }
                    }
                },
            }
        }
    }
}

/// What was parsed is what the parser gives for the text that was found, and nothing where none was.
pub proof fn law_parsed<T, F: Fn(&str) -> Option<T>>(text: Seq<char>, parse: F, r: Option<T>)
    ensures
        parsed(None, parse, r) ==> r is None,
        parsed(Some(text), parse, r) ==> exists|content: &str|
            content@ == text && #[trigger] call_ensures(parse, (content,), r),
{
}

/// Switches are those of one of three kinds of installers, and of one only.
pub proof fn law_switch_kinds(switches: Switches)
    ensures
        !(switches_are(switches, true, true) && switches_are(switches, false, true)),
        !(switches_are(switches, true, false) && switches_are(switches, false, false)),
        !(switches_are(switches, false, true) && switches_are(switches, false, false)),
        switches_are(switches, true, true) <==> switches_are(switches, true, false),
{
}

/// The return codes of an installer that is driven by MSI are more than those of another.
pub proof fn law_return_code_counts()
    ensures
        return_codes(true).len() == 22,
        return_codes(false).len() == 6,
{
}

} // verus!
