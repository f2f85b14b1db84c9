//! An InstallShield installer, and what it tells a manifest.
use vstd::prelude::*;
use vstd::string::*;

use super::entries::{
    entries_at, file_views, header_at, parse_installscript_entries, parse_plain_entries,
    parse_stream_entries, script_entries_at, Header, InstallShieldError, Kind, ScriptEncoding,
};
use super::file::{embedded_contents, text_of, File, FileView};
use super::read::{number_at, ReadError, Reader};
use super::return_codes::{expected_return_codes, return_codes};
use super::setup_ini::SetupIni;
use super::setup_iss::SetupIss;
use super::setup_xml::{named_text, property, SetupXml};
use crate::manifest::{
    copy_option, AppsAndFeaturesEntry, Architecture, Installer, InstallerType, Scope, Switches,
};
use crate::number::{number_value, parse_number};
use crate::search::{
    eq_ignore_ascii_case, replace, replaced, same_ignoring_case, starts_with, stripped_front,
    trim_start_matches,
};
use crate::text::{joined, opt_text, str_eq, trim, trimmed};
use crate::winget::{
    directory_scope, language_tag, parse_language_tag, scope_from_directory, windows_language,
    windows_language_tag,
};

verus! {

/// What is known of an executable before its overlay is read.
pub struct PeFacts {
    /// Where the bytes behind the last section start.
    pub overlay_offset: Option<u64>,
    /// Where the certificates start.
    pub certificate_address: Option<u32>,
    /// The texts of the version information by their names.
    pub version_strings: Option<Vec<(String, String)>>,
    pub architecture: Architecture,
}

/// An InstallShield installer.
#[derive(Debug)]
pub struct InstallShield {
    pub architecture: Architecture,
    pub setup_ini: Option<SetupIni>,
    pub setup_iss: Option<SetupIss>,
    pub setup_xml: Option<SetupXml>,
}

/// How an InstallScript installer writes its texts, where its version information tells that it is
/// one.
pub open spec fn script_encoding(strings: Option<Vec<(String, String)>>) -> Option<ScriptEncoding> {
    match strings {
        None => None,
        Some(strings) => {
            let description = named_text(strings@, "ISInternalDescription"@);
            let product = named_text(strings@, "ProductName"@);
            if description is Some && "InstallScript"@.is_prefix_of(description.unwrap()) {
                Some(ScriptEncoding::Unicode)
            } else if product == Some("InstallShield (R)"@) || product == Some("InstallShield"@) {
                Some(ScriptEncoding::Ascii)
            } else {
                None
            }
        },
    }
}

/// The first text with a name.
fn find_text<'a>(strings: &'a Vec<(String, String)>, name: &str) -> (r: Option<&'a str>)
    ensures
        named_text(strings@, name@) == match r {
            Some(text) => Some(text@),
            None => None::<Seq<char>>,
        },
{
    let mut i: usize = 0;
    assert(strings@.skip(0) =~= strings@);
    while i < strings.len()
        invariant
            i <= strings.len(),
            named_text(strings@, name@) == named_text(strings@.skip(i as int), name@),
        decreases strings.len() - i,
    {
        assert(strings@.skip(i as int).drop_first() =~= strings@.skip(i + 1));
        if str_eq(strings[i].0.as_str(), name) {
            return Some(strings[i].1.as_str());
        }
        i += 1;
    }
    None
}

fn encoding_of(strings: &Option<Vec<(String, String)>>) -> (r: Option<ScriptEncoding>)
    ensures
        r == script_encoding(*strings),
{
    match strings {
        None => None,
        Some(strings) => {
            if let Some(description) = find_text(strings, "ISInternalDescription") {
                if starts_with(description, "InstallScript") {
                    return Some(ScriptEncoding::Unicode);
                }
            }
            if let Some(product) = find_text(strings, "ProductName") {
                if str_eq(product, "InstallShield (R)") || str_eq(product, "InstallShield") {
                    return Some(ScriptEncoding::Ascii);
                }
            }
            None
        },
    }
}

/// Where the overlay ends: at the certificates behind its start, or else with the file.
pub open spec fn overlay_end(data: Seq<u8>, overlay: u64, certificate: Option<u32>) -> int {
    match certificate {
        Some(address) if address > overlay => address as int,
        _ => data.len() as int,
    }
}

/// The outcome of reading entries, as the error of an installer.
pub open spec fn entries_outcome(r: Result<Seq<FileView>, ReadError>) -> Result<
    Seq<FileView>,
    InstallShieldError,
> {
    match r {
        Ok(files) => Ok(files),
        Err(error) => Err(InstallShieldError::Io(error)),
    }
}

/// The files that an overlay lists.
pub open spec fn overlay_files(
    data: Seq<u8>,
    overlay: u64,
    end: int,
    encoding: Option<ScriptEncoding>,
) -> Result<Seq<FileView>, InstallShieldError> {
    let at = overlay as int;
    match encoding {
        Some(ScriptEncoding::Unicode) => match number_at(data, at, 4) {
            Err(error) => Err(InstallShieldError::Io(error)),
            Ok((count, next)) => entries_outcome(
                script_entries_at(ScriptEncoding::Unicode, data, next, count, end, Seq::empty()),
            ),
        },
        Some(ScriptEncoding::Ascii) => entries_outcome(
            script_entries_at(ScriptEncoding::Ascii, data, at, u32::MAX as nat, end, Seq::empty()),
        ),
        None => match header_at(data, at) {
            Err(error) => Err(error),
            Ok((header, next)) => entries_outcome(
                entries_at(
                    header.kind,
                    match header.kind {
                        Kind::Plain => 0,
                        Kind::SetupStream => header.header_type,
                    },
                    data,
                    next,
                    header.num_files as nat,
                    Seq::empty(),
                ),
            ),
        },
    }
}

/// The files embedded in an executable.
pub open spec fn embedded_files(data: Seq<u8>, pe: PeFacts) -> Result<
    Seq<FileView>,
    InstallShieldError,
> {
    match pe.overlay_offset {
        None => Err(InstallShieldError::NotInstallShieldFile),
        Some(overlay) => overlay_files(
            data,
            overlay,
            overlay_end(data, overlay, pe.certificate_address),
            script_encoding(pe.version_strings),
        ),
    }
}

/// The files embedded in an executable.
pub fn read_files(data: &[u8], pe: &PeFacts) -> (r: Result<Vec<File>, InstallShieldError>)
    ensures
        embedded_files(data@, *pe) == match r {
            Ok(files) => Ok::<Seq<FileView>, InstallShieldError>(file_views(files@)),
            Err(error) => Err(error),
        },
{
    let overlay: u64 = match pe.overlay_offset {
        Some(overlay) => overlay,
        None => {
            return Err(InstallShieldError::NotInstallShieldFile);
        },
    };
    let total: usize = data.len();
    let end: u64 = match pe.certificate_address {
        Some(address) if address as u64 > overlay => address as u64,
        _ => total as u64,
    };
    let encoding = encoding_of(&pe.version_strings);
    let mut reader = Reader::new(data, overlay);
    match encoding {
        Some(ScriptEncoding::Unicode) => {
            let count: u32 = match reader.read_u32() {
                Ok(count) => count,
                Err(error) => {
                    return Err(InstallShieldError::Io(error));
                },
            };
            parse_installscript_entries(&mut reader, count, ScriptEncoding::Unicode, end)
        },
        Some(ScriptEncoding::Ascii) => parse_installscript_entries(
            &mut reader,
            u32::MAX,
            ScriptEncoding::Ascii,
            end,
        ),
        None => {
            let header = Header::read(&mut reader)?;
            match header.kind {
                Kind::Plain => parse_plain_entries(&mut reader, header.num_files),
                Kind::SetupStream => parse_stream_entries(
                    &mut reader,
                    header.num_files,
                    header.header_type,
                ),
            }
        },
    }
}

/// The last file with a name, the case of letters ignored.
pub open spec fn last_named(files: Seq<FileView>, name: Seq<char>) -> Option<FileView>
    decreases files.len(),
{
    if files.len() == 0 {
        None
    } else if same_ignoring_case(files.last().name, name) {
        Some(files.last())
    } else {
        last_named(files.drop_last(), name)
    }
}

/// The text of the last file with a name, where it can be read.
pub open spec fn found_text(files: Seq<FileView>, data: Seq<u8>, name: Seq<char>) -> Option<
    Seq<char>,
> {
    match last_named(files, name) {
        Some(file) => match embedded_contents(file, data) {
            Ok(Some(contents)) => Some(text_of(contents)),
            _ => None,
        },
        None => None,
    }
}

/// What a parser may give for a text that was found, or was not.
pub open spec fn parsed<T, F: Fn(&str) -> Option<T>>(
    text: Option<Seq<char>>,
    parse: F,
    r: Option<T>,
) -> bool {
    match text {
        Some(text) => exists|content: &str|
            content@ == text && #[trigger] call_ensures(parse, (content,), r),
        None => r is None,
    }
}

/// Parses the last file with a name, the case of letters ignored. Nothing is parsed where there is
/// none, or where it cannot be read.
pub fn find_and_parse<'a, T, F: Fn(&str) -> Option<T>>(
    files: &Vec<File>,
    reader: &mut Reader<'a>,
    name: &str,
    parse: F,
) -> (r: Option<T>)
    requires
        forall|content: &str| call_requires(parse, (content,)),
    ensures
        final(reader).data@ == old(reader).data@,
        parsed(found_text(file_views(files@), old(reader).data@, name@), parse, r),
{
    let ghost views = file_views(files@);
    let mut i: usize = files.len();
    assert(views.take(i as int) =~= views);
    while i > 0 && !eq_ignore_ascii_case(files[i - 1].name.as_str(), name)
        invariant
            i <= files.len(),
            views == file_views(files@),
            last_named(views, name@) == last_named(views.take(i as int), name@),
        decreases i,
    {
        let ghost part = views.take(i as int);
        assert(part.last() == files@[i - 1]@);
        assert(part.drop_last() =~= views.take(i - 1));
        i -= 1;
    }
    if i == 0 {
        return None;
    }
    assert(views.take(i as int).last() == files@[i - 1]@);
    match files[i - 1].read_text(reader) {
        Ok(Some(content)) => {
            let text = content.as_str();
            let r = parse(text);
            assert(call_ensures(parse, (text,), r));
            r
        },
        _ => None,
    }
}

impl InstallShield {
    /// Reads an installer out of the bytes of an executable. It is one where its overlay lists files
    /// and one of the three setup files among them can be parsed.
    pub fn new<
        F: Fn(&str) -> Option<SetupIni>,
        G: Fn(&str) -> Option<SetupIss>,
        H: Fn(&str) -> Option<SetupXml>,
    >(data: &[u8], pe: &PeFacts, parse_ini: F, parse_iss: G, parse_xml: H) -> (r: Result<
        InstallShield,
        InstallShieldError,
    >)
        requires
            forall|content: &str| call_requires(parse_ini, (content,)),
            forall|content: &str| call_requires(parse_iss, (content,)),
            forall|content: &str| call_requires(parse_xml, (content,)),
        ensures
            match (embedded_files(data@, *pe), r) {
                (Ok(files), Ok(found)) => {
                    &&& found.architecture == pe.architecture
                    &&& parsed(found_text(files, data@, "setup.ini"@), parse_ini, found.setup_ini)
                    &&& parsed(found_text(files, data@, "setup.iss"@), parse_iss, found.setup_iss)
                    &&& parsed(found_text(files, data@, "Setup.xml"@), parse_xml, found.setup_xml)
                    &&& found.setup_ini is Some || found.setup_iss is Some || found.setup_xml is Some
                },
                (Ok(files), Err(error)) => {
                    &&& error == InstallShieldError::NotInstallShieldFile
                    &&& parsed(found_text(files, data@, "setup.ini"@), parse_ini, None)
                    &&& parsed(found_text(files, data@, "setup.iss"@), parse_iss, None)
                    &&& parsed(found_text(files, data@, "Setup.xml"@), parse_xml, None)
                },
                (Err(fault), Err(error)) => error == fault,
                (Err(_), Ok(_)) => false,
            },
    {
        let files = read_files(data, pe)?;
        let mut reader = Reader::new(data, 0);
        let setup_ini = find_and_parse(&files, &mut reader, "setup.ini", parse_ini);
        let setup_iss = find_and_parse(&files, &mut reader, "setup.iss", parse_iss);
        let setup_xml = find_and_parse(&files, &mut reader, "Setup.xml", parse_xml);
        if setup_ini.is_none() && setup_iss.is_none() && setup_xml.is_none() {
            return Err(InstallShieldError::NotInstallShieldFile);
        }
        Ok(InstallShield { architecture: pe.architecture, setup_ini, setup_iss, setup_xml })
    }

    /// How the installer is driven.
    pub open spec fn driven_by(self) -> Option<Seq<char>> {
        match self.setup_ini {
            Some(ini) => opt_text(ini.startup.script_driven),
            None => None,
        }
    }

    /// Whether the installer is based on MSI.
    pub open spec fn is_msi_based(self) -> bool {
        self.driven_by() == Some("0"@) || self.driven_by() == Some("2"@)
    }

    /// The publisher of the product.
    pub open spec fn publisher(self) -> Option<Seq<char>> {
        match (self.setup_ini, self.setup_iss, self.setup_xml) {
            (Some(ini), _, _) if ini.startup.company_name is Some => opt_text(
                ini.startup.company_name,
            ),
            (_, Some(iss), _) => Some(iss.application.company@),
            (_, _, Some(xml)) => Some(xml.publisher_text()),
            _ => None,
        }
    }

    /// The product code under which Windows knows the product.
    pub open spec fn product_code(self) -> Option<Seq<char>> {
        match (self.setup_ini, self.setup_xml) {
            (Some(ini), _) if ini.startup.product_code is Some => {
                let code = ini.startup.product_code.unwrap()@;
                Some(
                    if self.is_msi_based() {
                        code
                    } else if self.driven_by() == Some("4"@) {
                        "{"@ + code + "}"@
                    } else {
                        "InstallShield_"@ + code
                    },
                )
            },
            (_, Some(xml)) => match property(xml.set_property@, "ProductCode"@) {
                Some(code) => Some(code),
                None => Some(xml.suite_id@),
            },
            _ => None,
        }
    }

    /// The version of the product.
    pub open spec fn version(self) -> Option<Seq<char>> {
        match (self.setup_ini, self.setup_iss, self.setup_xml) {
            (Some(ini), _, _) if ini.startup.product_version is Some => opt_text(
                ini.startup.product_version,
            ),
            (_, Some(iss), _) => Some(iss.application.version@),
            (_, _, Some(xml)) => Some(xml.arp_info.version@),
            _ => None,
        }
    }

    /// The version of the product as Windows shows it, without the white space around it.
    pub open spec fn display_version(self) -> Option<Seq<char>> {
        match self.version() {
            Some(version) => Some(trimmed(version)),
            None => None,
        }
    }

    /// The number of the default language.
    pub open spec fn language_id(self) -> Option<nat> {
        let from_ini = match self.setup_ini {
            Some(ini) => number_value(
                stripped_front(ini.languages.default@, "0x"@),
                16,
                u16::MAX as nat,
            ),
            None => None,
        };
        match (from_ini, self.setup_xml) {
            (Some(id), _) => Some(id),
            (None, Some(xml)) => number_value(xml.language_selection.default@, 10, u16::MAX as nat),
            (None, None) => None,
        }
    }

    /// The default language.
    pub open spec fn locale(self) -> Option<Seq<char>> {
        match self.language_id() {
            Some(id) => language_tag(windows_language(id as u16)),
            None => None,
        }
    }

    /// The name of the product.
    pub open spec fn display_name(self) -> Option<Seq<char>> {
        match (self.setup_ini, self.setup_iss, self.setup_xml) {
            (Some(ini), _, _) if ini.startup.product is Some => opt_text(ini.startup.product),
            (_, Some(iss), _) => Some(iss.application.name@),
            (_, _, Some(xml)) => Some(xml.arp_info.display_name@),
            _ => None,
        }
    }

    /// The code that all versions of the product share.
    pub open spec fn upgrade_code(self) -> Option<Seq<char>> {
        match (self.setup_ini, self.setup_xml) {
            (Some(ini), _) if ini.startup.upgrade_code is Some => opt_text(
                ini.startup.upgrade_code,
            ),
            (_, Some(xml)) => property(xml.set_property@, "UpgradeCode"@),
            _ => None,
        }
    }

    /// Where the product is installed.
    pub open spec fn install_dir(self) -> Option<Seq<char>> {
        match self.setup_xml {
            Some(xml) => match property(xml.set_property@, "INSTALLDIR"@) {
                Some(value) => Some(
                    replaced(value, "[ProgramFiles64Folder]"@, "%ProgramFiles%"@),
                ),
                None => None,
            },
            None => None,
        }
    }

    /// For whom the product is installed: for the machine, where the directory does not tell.
    pub open spec fn scope(self) -> Scope {
        match self.install_dir() {
            Some(path) => match directory_scope(path) {
                Some(scope) => scope,
                None => Scope::Machine,
            },
            None => Scope::Machine,
        }
    }
}

/// Whether switches are those of an installer with a `Setup.xml`, of one based on MSI, or of another.
pub open spec fn switches_are(switches: Switches, has_xml: bool, msi_based: bool) -> bool {
    if has_xml {
        &&& opt_text(switches.silent) == Some("/silent"@)
        &&& opt_text(switches.silent_with_progress) == Some("/passive"@)
        &&& opt_text(switches.install_location) is None
        &&& opt_text(switches.log) == Some("/log \"<LOGPATH>\""@)
        &&& opt_text(switches.repair) == Some("/repair"@)
    } else if msi_based {
        &&& opt_text(switches.silent) == Some("/s /v\"/qn /norestart\""@)
        &&& opt_text(switches.silent_with_progress) == Some("/s /v\"/qb /norestart\""@)
        &&& opt_text(switches.install_location) == Some(
            "/v\"INSTALLDIR=\"\"<INSTALLPATH>\"\"\""@,
        )
        &&& opt_text(switches.log) == Some("/v\"/log \"\"<LOGPATH>\"\"\""@)
        &&& opt_text(switches.repair) is None
    } else {
        &&& opt_text(switches.silent) == Some("/s"@)
        &&& opt_text(switches.silent_with_progress) == Some("/s"@)
        &&& opt_text(switches.install_location) is None
        &&& opt_text(switches.log) is None
        &&& opt_text(switches.repair) is None
    }
}

/// The switches of an installer.
fn switches_of(has_xml: bool, msi_based: bool) -> (r: Switches)
    ensures
        switches_are(r, has_xml, msi_based),
{
    if has_xml {
        Switches {
            silent: Some("/silent".to_owned()),
            silent_with_progress: Some("/passive".to_owned()),
            install_location: None,
            log: Some("/log \"<LOGPATH>\"".to_owned()),
            repair: Some("/repair".to_owned()),
        }
    } else if msi_based {
        Switches {
            silent: Some("/s /v\"/qn /norestart\"".to_owned()),
            silent_with_progress: Some("/s /v\"/qb /norestart\"".to_owned()),
            install_location: Some("/v\"INSTALLDIR=\"\"<INSTALLPATH>\"\"\"".to_owned()),
            log: Some("/v\"/log \"\"<LOGPATH>\"\"\"".to_owned()),
            repair: None,
        }
    } else {
        Switches {
            silent: Some("/s".to_owned()),
            silent_with_progress: Some("/s".to_owned()),
            install_location: None,
            log: None,
            repair: None,
        }
    }
}

/// Whether an installer of a manifest says what an InstallShield installer tells.
pub open spec fn describes(installer: Installer, of: InstallShield) -> bool {
    &&& opt_text(installer.locale) == of.locale()
    &&& installer.architecture == of.architecture
    &&& installer.installer_type == Some(InstallerType::Exe)
    &&& installer.nested_installer_type is None
    &&& installer.nested_installer_files@.len() == 0
    &&& installer.scope == Some(of.scope())
    &&& installer.url@.len() == 0
    &&& installer.sha_256@.len() == 0
    &&& installer.release_date is None
    &&& opt_text(installer.product_code) == of.product_code()
    &&& installer.apps_and_features_entries@.len() == 1
    &&& ({
        let entry = installer.apps_and_features_entries@[0];
        &&& opt_text(entry.display_name) == of.display_name()
        &&& opt_text(entry.publisher) == of.publisher()
        &&& opt_text(entry.display_version) == of.display_version()
        &&& opt_text(entry.product_code) == of.product_code()
        &&& opt_text(entry.upgrade_code) == of.upgrade_code()
        &&& entry.installer_type is None
    })
    &&& opt_text(installer.install_location) == of.install_dir()
    &&& installer.all_install_modes
    &&& switches_are(installer.switches, of.setup_xml is Some, of.is_msi_based())
    &&& installer.expected_return_codes@ == return_codes(of.is_msi_based())
}

impl InstallShield {
    fn is_driven_by(&self, number: &str) -> (r: bool)
        ensures
            r == (self.driven_by() == Some(number@)),
    {
        match &self.setup_ini {
            Some(ini) => match &ini.startup.script_driven {
                Some(driven) => str_eq(driven.as_str(), number),
                None => false,
            },
            None => false,
        }
    }

    fn find_publisher(&self) -> (r: Option<String>)
        ensures
            opt_text(r) == self.publisher(),
    {
        if let Some(ini) = &self.setup_ini {
            if let Some(company) = &ini.startup.company_name {
                return Some(company.clone());
            }
        }
        if let Some(iss) = &self.setup_iss {
            return Some(iss.application.company.clone());
        }
        match &self.setup_xml {
            Some(xml) => Some(xml.publisher()),
            None => None,
        }
    }

    fn find_product_code(&self, msi_based: bool) -> (r: Option<String>)
        requires
            msi_based == self.is_msi_based(),
        ensures
            opt_text(r) == self.product_code(),
    {
        if let Some(ini) = &self.setup_ini {
            if let Some(code) = &ini.startup.product_code {
                return Some(
                    if msi_based {
                        code.clone()
                    } else if self.is_driven_by("4") {
                        joined(joined("{", code.as_str()).as_str(), "}")
                    } else {
                        joined("InstallShield_", code.as_str())
                    },
                );
            }
        }
        match &self.setup_xml {
            Some(xml) => match xml.get_property("ProductCode") {
                Some(code) => Some(code),
                None => Some(xml.suite_id.clone()),
            },
            None => None,
        }
    }

    fn find_version(&self) -> (r: Option<String>)
        ensures
            opt_text(r) == self.version(),
    {
        if let Some(ini) = &self.setup_ini {
            if let Some(version) = &ini.startup.product_version {
                return Some(version.clone());
            }
        }
        if let Some(iss) = &self.setup_iss {
            return Some(iss.application.version.clone());
        }
        match &self.setup_xml {
            Some(xml) => Some(xml.arp_info.version.clone()),
            None => None,
        }
    }

    fn find_language_id(&self) -> (r: Option<u16>)
        ensures
            self.language_id() == match r {
                Some(id) => Some(id as nat),
                None => None::<nat>,
            },
    {
        proof {
            reveal_strlit("0x");
        }
        if let Some(ini) = &self.setup_ini {
            let digits = trim_start_matches(ini.languages.default.as_str(), "0x");
            if let Some(id) = parse_number(digits.as_str(), 16, u16::MAX as u32) {
                return Some(id as u16);
            }
        }
        match &self.setup_xml {
            Some(xml) => match parse_number(
                xml.language_selection.default.as_str(),
                10,
                u16::MAX as u32,
            ) {
                Some(id) => Some(id as u16),
                None => None,
            },
            None => None,
        }
    }

    fn find_locale(&self) -> (r: Option<String>)
        ensures
            opt_text(r) == self.locale(),
    {
        match self.find_language_id() {
            Some(id) => parse_language_tag(windows_language_tag(id).as_str()),
            None => None,
        }
    }

    fn find_display_name(&self) -> (r: Option<String>)
        ensures
            opt_text(r) == self.display_name(),
    {
        if let Some(ini) = &self.setup_ini {
            if let Some(product) = &ini.startup.product {
                return Some(product.clone());
            }
        }
        if let Some(iss) = &self.setup_iss {
            return Some(iss.application.name.clone());
        }
        match &self.setup_xml {
            Some(xml) => Some(xml.arp_info.display_name.clone()),
            None => None,
        }
    }

    fn find_upgrade_code(&self) -> (r: Option<String>)
        ensures
            opt_text(r) == self.upgrade_code(),
    {
        if let Some(ini) = &self.setup_ini {
            if let Some(code) = &ini.startup.upgrade_code {
                return Some(code.clone());
            }
        }
        match &self.setup_xml {
            Some(xml) => xml.get_property("UpgradeCode"),
            None => None,
        }
    }

    fn find_install_dir(&self) -> (r: Option<String>)
        ensures
            opt_text(r) == self.install_dir(),
    {
        proof {
            reveal_strlit("[ProgramFiles64Folder]");
        }
        match &self.setup_xml {
            Some(xml) => match xml.get_property("INSTALLDIR") {
                Some(value) => Some(
                    replace(value.as_str(), "[ProgramFiles64Folder]", "%ProgramFiles%"),
                ),
                None => None,
            },
            None => None,
        }
    }

    /// What the installer tells a manifest.
    pub fn installers(&self) -> (r: Vec<Installer>)
        ensures
            r@.len() == 1,
            describes(r@[0], *self),
    {
        let msi_based = self.is_driven_by("0") || self.is_driven_by("2");
        let product_code = self.find_product_code(msi_based);
        let install_dir = self.find_install_dir();
        let scope = match &install_dir {
            Some(path) => match scope_from_directory(path.as_str()) {
                Some(scope) => scope,
                None => Scope::Machine,
            },
            None => Scope::Machine,
        };
        let entry = AppsAndFeaturesEntry {
            display_name: self.find_display_name(),
            publisher: self.find_publisher(),
            display_version: match self.find_version() {
                Some(version) => Some(trim(version.as_str())),
                None => None,
            },
            product_code: copy_option(&product_code),
            upgrade_code: self.find_upgrade_code(),
            installer_type: None,
        };
        let installer = Installer {
            locale: self.find_locale(),
            architecture: self.architecture,
            installer_type: Some(InstallerType::Exe),
            nested_installer_type: None,
            nested_installer_files: Vec::new(),
            scope: Some(scope),
            url: String::new(),
            sha_256: String::new(),
            release_date: None,
            product_code,
            apps_and_features_entries: vec![entry],
            install_location: install_dir,
            all_install_modes: true,
            switches: switches_of(self.setup_xml.is_some(), msi_based),
            expected_return_codes: expected_return_codes(msi_based),
        };
        vec![installer]
    }
}

} // verus!
