//! What a manifest says of an installer.
use vstd::prelude::*;
use vstd::string::*;

use crate::text::{opt_text, texts};
use crate::time::Date;

verus! {

/// The processors that an installer is for.
#[derive(Clone, Copy, Debug, Eq, PartialEq, Structural)]
pub enum Architecture {
    X86,
    X64,
    Arm,
    Arm64,
    Neutral,
}

impl Architecture {
    /// The name of the architecture.
    pub open spec fn name(self) -> Seq<char> {
        match self {
            Architecture::X86 => "x86"@,
            Architecture::X64 => "x64"@,
            Architecture::Arm => "arm"@,
            Architecture::Arm64 => "arm64"@,
            Architecture::Neutral => "neutral"@,
        }
    }

    /// The name of the architecture.
    pub fn as_str(self) -> (r: &'static str)
        ensures
            r@ == self.name(),
    {
        match self {
            Architecture::X86 => "x86",
            Architecture::X64 => "x64",
            Architecture::Arm => "arm",
            Architecture::Arm64 => "arm64",
            Architecture::Neutral => "neutral",
        }
    }
}

/// How an installer works.
#[derive(Clone, Copy, Debug, Eq, PartialEq, Structural)]
pub enum InstallerType {
    Msix,
    Msi,
    Appx,
    Exe,
    Inno,
    Nullsoft,
    Wix,
    Burn,
    Pwa,
    Zip,
    Portable,
    Font,
}

impl InstallerType {
    /// The name of the type.
    pub open spec fn name(self) -> Seq<char> {
        match self {
            InstallerType::Msix => "msix"@,
            InstallerType::Msi => "msi"@,
            InstallerType::Appx => "appx"@,
            InstallerType::Exe => "exe"@,
            InstallerType::Inno => "inno"@,
            InstallerType::Nullsoft => "nullsoft"@,
            InstallerType::Wix => "wix"@,
            InstallerType::Burn => "burn"@,
            InstallerType::Pwa => "pwa"@,
            InstallerType::Zip => "zip"@,
            InstallerType::Portable => "portable"@,
            InstallerType::Font => "font"@,
        }
    }

    /// The name of the type.
    pub fn as_str(self) -> (r: &'static str)
        ensures
            r@ == self.name(),
    {
        match self {
            InstallerType::Msix => "msix",
            InstallerType::Msi => "msi",
            InstallerType::Appx => "appx",
            InstallerType::Exe => "exe",
            InstallerType::Inno => "inno",
            InstallerType::Nullsoft => "nullsoft",
            InstallerType::Wix => "wix",
            InstallerType::Burn => "burn",
            InstallerType::Pwa => "pwa",
            InstallerType::Zip => "zip",
            InstallerType::Portable => "portable",
            InstallerType::Font => "font",
        }
    }
}

/// For whom an installer installs.
#[derive(Clone, Copy, Debug, Eq, PartialEq, Structural)]
pub enum Scope {
    User,
    Machine,
}

impl Scope {
    /// The name of the scope.
    pub open spec fn name(self) -> Seq<char> {
        match self {
            Scope::User => "user"@,
            Scope::Machine => "machine"@,
        }
    }

    /// The name of the scope.
    pub fn as_str(self) -> (r: &'static str)
        ensures
            r@ == self.name(),
    {
        match self {
            Scope::User => "user",
            Scope::Machine => "machine",
        }
    }
}

/// What a return code of an installer means.
#[derive(Clone, Copy, Debug, Eq, PartialEq, Structural)]
pub enum ReturnResponse {
    InstallInProgress,
    DiskFull,
    InvalidParameter,
    ContactSupport,
    RebootRequiredToFinish,
    RebootInitiated,
    CancelledByUser,
    AlreadyInstalled,
    BlockedByPolicy,
    SystemNotSupported,
}

/// The arguments that an installer takes.
#[derive(Debug)]
pub struct Switches {
    pub silent: Option<String>,
    pub silent_with_progress: Option<String>,
    pub install_location: Option<String>,
    pub log: Option<String>,
    pub repair: Option<String>,
}

/// An entry of Apps and Features.
#[derive(Debug)]
pub struct AppsAndFeaturesEntry {
    pub display_name: Option<String>,
    pub publisher: Option<String>,
    pub display_version: Option<String>,
    pub product_code: Option<String>,
    pub upgrade_code: Option<String>,
    pub installer_type: Option<InstallerType>,
}

/// A file inside an archive.
#[derive(Debug)]
pub struct NestedInstallerFile {
    pub relative_file_path: String,
    pub portable_command_alias: Option<String>,
}

/// What is known of an installer.
#[derive(Debug)]
pub struct Installer {
    pub locale: Option<String>,
    pub architecture: Architecture,
    pub installer_type: Option<InstallerType>,
    pub nested_installer_type: Option<InstallerType>,
    pub nested_installer_files: Vec<NestedInstallerFile>,
    pub scope: Option<Scope>,
    pub url: String,
    pub sha_256: String,
    pub release_date: Option<Date>,
    pub product_code: Option<String>,
    pub apps_and_features_entries: Vec<AppsAndFeaturesEntry>,
    pub install_location: Option<String>,
    /// Whether every install mode is supported; else none is told of.
    pub all_install_modes: bool,
    pub switches: Switches,
    pub expected_return_codes: Vec<(i32, ReturnResponse)>,
}

/// Another string with the same text, where there is one.
pub fn copy_option(o: &Option<String>) -> (r: Option<String>)
    ensures
        r == *o,
{
    match o {
        Some(s) => Some(s.clone()),
        None => None,
    }
}

/// What [`Switches`] say.
#[verifier::ext_equal]
pub struct SwitchesView {
    pub silent: Option<Seq<char>>,
    pub silent_with_progress: Option<Seq<char>>,
    pub install_location: Option<Seq<char>>,
    pub log: Option<Seq<char>>,
    pub repair: Option<Seq<char>>,
}

impl View for Switches {
    type V = SwitchesView;

    open spec fn view(&self) -> SwitchesView {
        SwitchesView {
            silent: opt_text(self.silent),
            silent_with_progress: opt_text(self.silent_with_progress),
            install_location: opt_text(self.install_location),
            log: opt_text(self.log),
            repair: opt_text(self.repair),
        }
    }
}

/// What an [`AppsAndFeaturesEntry`] says.
#[verifier::ext_equal]
pub struct EntryView {
    pub display_name: Option<Seq<char>>,
    pub publisher: Option<Seq<char>>,
    pub display_version: Option<Seq<char>>,
    pub product_code: Option<Seq<char>>,
    pub upgrade_code: Option<Seq<char>>,
    pub installer_type: Option<InstallerType>,
}

impl View for AppsAndFeaturesEntry {
    type V = EntryView;

    open spec fn view(&self) -> EntryView {
        EntryView {
            display_name: opt_text(self.display_name),
            publisher: opt_text(self.publisher),
            display_version: opt_text(self.display_version),
            product_code: opt_text(self.product_code),
            upgrade_code: opt_text(self.upgrade_code),
            installer_type: self.installer_type,
        }
    }
}

/// What a [`NestedInstallerFile`] says.
#[verifier::ext_equal]
pub struct NestedView {
    pub relative_file_path: Seq<char>,
    pub portable_command_alias: Option<Seq<char>>,
}

impl View for NestedInstallerFile {
    type V = NestedView;

    open spec fn view(&self) -> NestedView {
        NestedView {
            relative_file_path: self.relative_file_path@,
            portable_command_alias: opt_text(self.portable_command_alias),
        }
    }
}

/// What an [`Installer`] says.
#[verifier::ext_equal]
pub struct InstallerView {
    pub locale: Option<Seq<char>>,
    pub architecture: Architecture,
    pub installer_type: Option<InstallerType>,
    pub nested_installer_type: Option<InstallerType>,
    pub nested_installer_files: Seq<NestedView>,
    pub scope: Option<Scope>,
    pub url: Seq<char>,
    pub sha_256: Seq<char>,
    pub release_date: Option<Date>,
    pub product_code: Option<Seq<char>>,
    pub apps_and_features_entries: Seq<EntryView>,
    pub install_location: Option<Seq<char>>,
    pub all_install_modes: bool,
    pub switches: SwitchesView,
    pub expected_return_codes: Seq<(i32, ReturnResponse)>,
}

/// What a list of nested files says.
pub open spec fn nested_views(files: Seq<NestedInstallerFile>) -> Seq<NestedView> {
    files.map_values(|file: NestedInstallerFile| file@)
}

/// What a list of entries says.
pub open spec fn entry_views(entries: Seq<AppsAndFeaturesEntry>) -> Seq<EntryView> {
    entries.map_values(|entry: AppsAndFeaturesEntry| entry@)
}

/// What a list of installers says.
pub open spec fn installer_views(installers: Seq<Installer>) -> Seq<InstallerView> {
    installers.map_values(|installer: Installer| installer@)
}

impl View for Installer {
    type V = InstallerView;

    open spec fn view(&self) -> InstallerView {
        InstallerView {
            locale: opt_text(self.locale),
            architecture: self.architecture,
            installer_type: self.installer_type,
            nested_installer_type: self.nested_installer_type,
            nested_installer_files: nested_views(self.nested_installer_files@),
            scope: self.scope,
            url: self.url@,
            sha_256: self.sha_256@,
            release_date: self.release_date,
            product_code: opt_text(self.product_code),
            apps_and_features_entries: entry_views(self.apps_and_features_entries@),
            install_location: opt_text(self.install_location),
            all_install_modes: self.all_install_modes,
            switches: self.switches@,
            expected_return_codes: self.expected_return_codes@,
        }
    }
}

impl Switches {
    /// Switches that say the same.
    pub fn copy(&self) -> (r: Switches)
        ensures
            r@ == self@,
    {
        Switches {
            silent: copy_option(&self.silent),
            silent_with_progress: copy_option(&self.silent_with_progress),
            install_location: copy_option(&self.install_location),
            log: copy_option(&self.log),
            repair: copy_option(&self.repair),
        }
    }

    /// No switches.
    pub fn none() -> (r: Switches)
        ensures
            r@ == (SwitchesView {
                silent: None,
                silent_with_progress: None,
                install_location: None,
                log: None,
                repair: None,
            }),
    {
        Switches {
            silent: None,
            silent_with_progress: None,
            install_location: None,
            log: None,
            repair: None,
        }
    }
}

impl AppsAndFeaturesEntry {
    /// An entry that says the same.
    pub fn copy(&self) -> (r: AppsAndFeaturesEntry)
        ensures
            r@ == self@,
    {
        AppsAndFeaturesEntry {
            display_name: copy_option(&self.display_name),
            publisher: copy_option(&self.publisher),
            display_version: copy_option(&self.display_version),
            product_code: copy_option(&self.product_code),
            upgrade_code: copy_option(&self.upgrade_code),
            installer_type: self.installer_type,
        }
    }
}

impl NestedInstallerFile {
    /// A nested file that says the same.
    pub fn copy(&self) -> (r: NestedInstallerFile)
        ensures
            r@ == self@,
    {
        NestedInstallerFile {
            relative_file_path: self.relative_file_path.clone(),
            portable_command_alias: copy_option(&self.portable_command_alias),
        }
    }
}

/// Nested files that say the same.
pub fn copy_nested(files: &Vec<NestedInstallerFile>) -> (r: Vec<NestedInstallerFile>)
    ensures
        nested_views(r@) == nested_views(files@),
{
    let mut out: Vec<NestedInstallerFile> = Vec::new();
    let mut i: usize = 0;
    while i < files.len()
        invariant
            i <= files.len(),
            nested_views(out@) == nested_views(files@).take(i as int),
        decreases files.len() - i,
    {
        let ghost before = nested_views(out@);
        out.push(files[i].copy());
        i += 1;
        assert(nested_views(out@) =~= before.push(files@[i - 1]@));
        assert(nested_views(files@).take(i as int) =~= nested_views(files@).take(i - 1).push(files@[i - 1]@));
    }
    assert(nested_views(files@).take(i as int) =~= nested_views(files@));
    out
}

/// Entries that say the same.
pub fn copy_entries(entries: &Vec<AppsAndFeaturesEntry>) -> (r: Vec<AppsAndFeaturesEntry>)
    ensures
        entry_views(r@) == entry_views(entries@),
{
    let mut out: Vec<AppsAndFeaturesEntry> = Vec::new();
    let mut i: usize = 0;
    while i < entries.len()
        invariant
            i <= entries.len(),
            entry_views(out@) == entry_views(entries@).take(i as int),
        decreases entries.len() - i,
    {
        let ghost before = entry_views(out@);
        out.push(entries[i].copy());
        i += 1;
        assert(entry_views(out@) =~= before.push(entries@[i - 1]@));
        assert(entry_views(entries@).take(i as int) =~= entry_views(entries@).take(i - 1).push(
            entries@[i - 1]@,
        ));
    }
    assert(entry_views(entries@).take(i as int) =~= entry_views(entries@));
    out
}

/// Codes that are the same.
fn copy_codes(codes: &Vec<(i32, ReturnResponse)>) -> (r: Vec<(i32, ReturnResponse)>)
    ensures
        r@ == codes@,
{
    let mut out: Vec<(i32, ReturnResponse)> = Vec::new();
    let mut i: usize = 0;
    while i < codes.len()
        invariant
            i <= codes.len(),
            out@ == codes@.take(i as int),
        decreases codes.len() - i,
    {
        out.push((codes[i].0, codes[i].1));
        i += 1;
        assert(out@ =~= codes@.take(i as int));
    }
    assert(codes@.take(i as int) =~= codes@);
    out
}

impl Installer {
    /// An installer that says the same.
    pub fn copy(&self) -> (r: Installer)
        ensures
            r@ == self@,
    {
        Installer {
            locale: copy_option(&self.locale),
            architecture: self.architecture,
            installer_type: self.installer_type,
            nested_installer_type: self.nested_installer_type,
            nested_installer_files: copy_nested(&self.nested_installer_files),
            scope: self.scope,
            url: self.url.clone(),
            sha_256: self.sha_256.clone(),
            release_date: self.release_date,
            product_code: copy_option(&self.product_code),
            apps_and_features_entries: copy_entries(&self.apps_and_features_entries),
            install_location: copy_option(&self.install_location),
            all_install_modes: self.all_install_modes,
            switches: self.switches.copy(),
            expected_return_codes: copy_codes(&self.expected_return_codes),
        }
    }
}

/// Installers that say the same.
pub fn copy_installers(installers: &Vec<Installer>) -> (r: Vec<Installer>)
    ensures
        installer_views(r@) == installer_views(installers@),
{
    let mut out: Vec<Installer> = Vec::new();
    let mut i: usize = 0;
    while i < installers.len()
        invariant
            i <= installers.len(),
            installer_views(out@) == installer_views(installers@).take(i as int),
        decreases installers.len() - i,
    {
        let ghost before = installer_views(out@);
        out.push(installers[i].copy());
        i += 1;
        assert(installer_views(out@) =~= before.push(installers@[i - 1]@));
        assert(installer_views(installers@).take(i as int) =~= installer_views(installers@).take(
            i - 1,
        ).push(installers@[i - 1]@));
    }
    assert(installer_views(installers@).take(i as int) =~= installer_views(installers@));
    out
}

/// Strings with the same texts.
pub fn copy_strings(strings: &Vec<String>) -> (r: Vec<String>)
    ensures
        texts(r@) == texts(strings@),
{
    let mut out: Vec<String> = Vec::new();
    let mut i: usize = 0;
    while i < strings.len()
        invariant
            i <= strings.len(),
            texts(out@) == texts(strings@).take(i as int),
        decreases strings.len() - i,
    {
        let ghost before = texts(out@);
        out.push(strings[i].clone());
        i += 1;
        assert(texts(out@) =~= before.push(strings@[i - 1]@));
        assert(texts(strings@).take(i as int) =~= texts(strings@).take(i - 1).push(strings@[i - 1]@));
    }
    assert(texts(strings@).take(i as int) =~= texts(strings@));
    out
}

} // verus!
