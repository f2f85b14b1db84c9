//! Which analysis a file gets, and what comes of it.
use vstd::prelude::*;
use vstd::string::*;

use crate::manifest::{installer_views, Architecture, Installer, InstallerView};
use crate::search::{lower_text, matches_at, to_ascii_lowercase};
use crate::text::{chars_of, opt_text, str_eq, string_of};
use crate::winget::{parse_copyright, parse_package_name, parse_publisher};

verus! {

/// The extensions of the files that can be analyzed.
#[derive(Clone, Copy, Debug, Eq, PartialEq, Structural)]
pub enum ValidFileExtensions {
    Msi,
    Msix,
    Appx,
    MsixBundle,
    AppxBundle,
    Zip,
    Exe,
    Fnt,
    Otc,
    Otf,
    Ttc,
    Ttf,
}

/// A path without the slashes at its end, and without parts at its end that lead nowhere.
pub open spec fn stripped(path: Seq<char>) -> Seq<char>
    decreases path.len(),
{
    if path.len() > 0 && (path.last() == '/' || (path.len() > 1 && path.last() == '.'
        && path[path.len() - 2] == '/')) {
        stripped(path.drop_last())
    } else {
        path
    }
}

/// What is stripped off a path stands at its end.
pub proof fn lemma_stripped(path: Seq<char>)
    ensures
        stripped(path).len() <= path.len(),
        stripped(path) == path.take(stripped(path).len() as int),
    decreases path.len(),
{
    if path.len() > 0 && (path.last() == '/' || (path.len() > 1 && path.last() == '.'
        && path[path.len() - 2] == '/')) {
        lemma_stripped(path.drop_last());
        let n = stripped(path).len() as int;
        assert(path.drop_last().take(n) =~= path.take(n));
    } else {
        assert(path.take(path.len() as int) =~= path);
    }
}

/// The length of a path without what is stripped off it.
pub fn stripped_len(chars: &Vec<char>) -> (r: usize)
    ensures
        r == stripped(chars@).len(),
        r <= chars@.len(),
{
    let mut end: usize = chars.len();
    assert(chars@.take(end as int) =~= chars@);
    while end > 0 && (chars[end - 1] == '/' || (end > 1 && chars[end - 1] == '.' && chars[end - 2]
        == '/'))
        invariant
            end <= chars.len(),
            stripped(chars@) == stripped(chars@.take(end as int)),
        decreases end,
    {
        assert(chars@.take(end as int).drop_last() =~= chars@.take(end - 1));
        end -= 1;
    }
    end
}

/// Whether the last part of a path leads to the directory above.
pub open spec fn leads_up(path: Seq<char>) -> bool {
    path.len() > 1 && path.last() == '.' && path[path.len() - 2] == '.' && (path.len() == 2
        || path[path.len() - 3] == '/')
}

/// The extension of a path: what follows the last dot of its last part, where that part does not
/// start with that dot.
pub open spec fn extension(path: Seq<char>) -> Option<Seq<char>> {
    let path = stripped(path);
    if leads_up(path) {
        None
    } else {
        extension_before(path, path.len() as int)
    }
}

/// The extension of a path of which the characters from `end` on hold no dot and no slash.
pub open spec fn extension_before(path: Seq<char>, end: int) -> Option<Seq<char>>
    decreases end,
{
    if end <= 0 || path[end - 1] == '/' {
        None
    } else if path[end - 1] == '.' {
        if end == 1 || path[end - 2] == '/' {
            None
        } else {
            Some(path.skip(end))
        }
    } else {
        extension_before(path, end - 1)
    }
}

/// The extension that can be analyzed which a text names, in whatever case.
pub open spec fn named_extension(name: Seq<char>) -> Option<ValidFileExtensions> {
    let name = lower_text(name);
    if name == "msi"@ {
        Some(ValidFileExtensions::Msi)
    } else if name == "msix"@ {
        Some(ValidFileExtensions::Msix)
    } else if name == "appx"@ {
        Some(ValidFileExtensions::Appx)
    } else if name == "msixbundle"@ {
        Some(ValidFileExtensions::MsixBundle)
    } else if name == "appxbundle"@ {
        Some(ValidFileExtensions::AppxBundle)
    } else if name == "zip"@ {
        Some(ValidFileExtensions::Zip)
    } else if name == "exe"@ {
        Some(ValidFileExtensions::Exe)
    } else if name == "fnt"@ {
        Some(ValidFileExtensions::Fnt)
    } else if name == "otc"@ {
        Some(ValidFileExtensions::Otc)
    } else if name == "otf"@ {
        Some(ValidFileExtensions::Otf)
    } else if name == "ttc"@ {
        Some(ValidFileExtensions::Ttc)
    } else if name == "ttf"@ {
        Some(ValidFileExtensions::Ttf)
    } else {
        None
    }
}

/// The extension of a path, where it is one that can be analyzed.
pub open spec fn valid_extension(path: Seq<char>) -> Option<ValidFileExtensions> {
    match extension(path) {
        Some(name) => named_extension(name),
        None => None,
    }
}

/// The extension of a path.
pub fn extension_of(path: &str) -> (r: Option<String>)
    ensures
        opt_text(r) == extension(path@),
{
    let chars = chars_of(path);
    let total: usize = stripped_len(&chars);
    let ghost kept = stripped(path@);
    proof {
        lemma_stripped(path@);
    }
    if total > 1 && chars[total - 1] == '.' && chars[total - 2] == '.' && (total == 2 || chars[total
        - 3] == '/') {
        return None;
    }
    let mut end: usize = total;
    while end > 0
        invariant
            end <= total <= chars.len(),
            chars@ == path@,
            kept == path@.take(total as int),
            kept == stripped(path@),
            !leads_up(kept),
            extension(path@) == extension_before(kept, end as int),
        decreases end,
    {
        if chars[end - 1] == '/' {
            return None;
        }
        if chars[end - 1] == '.' {
            if end == 1 || chars[end - 2] == '/' {
                return None;
            }
            assert(chars@.subrange(end as int, total as int) =~= kept.skip(end as int));
            return Some(string_of(&chars, end, total));
        }
        end -= 1;
    }
    None
}

impl ValidFileExtensions {
    /// The name of the extension.
    pub open spec fn name(self) -> Seq<char> {
        match self {
            ValidFileExtensions::Msi => "msi"@,
            ValidFileExtensions::Msix => "msix"@,
            ValidFileExtensions::Appx => "appx"@,
            ValidFileExtensions::MsixBundle => "msixbundle"@,
            ValidFileExtensions::AppxBundle => "appxbundle"@,
            ValidFileExtensions::Zip => "zip"@,
            ValidFileExtensions::Exe => "exe"@,
            ValidFileExtensions::Fnt => "fnt"@,
            ValidFileExtensions::Otc => "otc"@,
            ValidFileExtensions::Otf => "otf"@,
            ValidFileExtensions::Ttc => "ttc"@,
            ValidFileExtensions::Ttf => "ttf"@,
        }
    }

    /// The name of the extension.
    pub fn as_str(self) -> (r: &'static str)
        ensures
            r@ == self.name(),
    {
        match self {
            ValidFileExtensions::Msi => "msi",
            ValidFileExtensions::Msix => "msix",
            ValidFileExtensions::Appx => "appx",
            ValidFileExtensions::MsixBundle => "msixbundle",
            ValidFileExtensions::AppxBundle => "appxbundle",
            ValidFileExtensions::Zip => "zip",
            ValidFileExtensions::Exe => "exe",
            ValidFileExtensions::Fnt => "fnt",
            ValidFileExtensions::Otc => "otc",
            ValidFileExtensions::Otf => "otf",
            ValidFileExtensions::Ttc => "ttc",
            ValidFileExtensions::Ttf => "ttf",
        }
    }

    /// The extension of a path, where it is one that can be analyzed.
    pub fn from_path(path: &str) -> (r: Option<ValidFileExtensions>)
        ensures
            r == valid_extension(path@),
    {
        match extension_of(path) {
            Some(name) => {
                let name = to_ascii_lowercase(name.as_str());
                let name = name.as_str();
                if str_eq(name, "msi") {
                    Some(ValidFileExtensions::Msi)
                } else if str_eq(name, "msix") {
                    Some(ValidFileExtensions::Msix)
                } else if str_eq(name, "appx") {
                    Some(ValidFileExtensions::Appx)
                } else if str_eq(name, "msixbundle") {
                    Some(ValidFileExtensions::MsixBundle)
                } else if str_eq(name, "appxbundle") {
                    Some(ValidFileExtensions::AppxBundle)
                } else if str_eq(name, "zip") {
                    Some(ValidFileExtensions::Zip)
                } else if str_eq(name, "exe") {
                    Some(ValidFileExtensions::Exe)
                } else if str_eq(name, "fnt") {
                    Some(ValidFileExtensions::Fnt)
                } else if str_eq(name, "otc") {
                    Some(ValidFileExtensions::Otc)
                } else if str_eq(name, "otf") {
                    Some(ValidFileExtensions::Otf)
                } else if str_eq(name, "ttc") {
                    Some(ValidFileExtensions::Ttc)
                } else if str_eq(name, "ttf") {
                    Some(ValidFileExtensions::Ttf)
                } else {
                    None
                }
            },
            None => None,
        }
    }
}

/// How a file is analyzed.
#[derive(Clone, Copy, Debug, Eq, PartialEq, Structural)]
pub enum Method {
    Msi,
    Msix,
    MsixBundle,
    Zip,
    Exe,
    Font,
}

/// How a file with an extension is analyzed. An MSIX package that is not signed cannot be installed
/// as one, so it is an archive.
pub open spec fn method_for(extension: ValidFileExtensions, signed: bool) -> Method {
    match extension {
        ValidFileExtensions::Msi => Method::Msi,
        ValidFileExtensions::Msix | ValidFileExtensions::Appx => if signed {
            Method::Msix
        } else {
            Method::Zip
        },
        ValidFileExtensions::Zip => Method::Zip,
        ValidFileExtensions::MsixBundle | ValidFileExtensions::AppxBundle => Method::MsixBundle,
        ValidFileExtensions::Exe => Method::Exe,
        ValidFileExtensions::Fnt
        | ValidFileExtensions::Otc
        | ValidFileExtensions::Otf
        | ValidFileExtensions::Ttc
        | ValidFileExtensions::Ttf => Method::Font,
    }
}

/// What has to be known before a file is analyzed.
#[derive(Clone, Copy, Debug, Eq, PartialEq, Structural)]
pub enum Step {
    /// Whether the package is signed.
    CheckSignature,
    /// Nothing more: this is how.
    Analyze(Method),
}

/// What the analysis of a file starts with. There is none where its extension cannot be analyzed.
pub fn first_step(file_name: &str) -> (r: Option<Step>)
    ensures
        match valid_extension(file_name@) {
            None => r is None,
            Some(extension) => r == Some(
                if extension is Msix || extension is Appx {
                    Step::CheckSignature
                } else {
                    Step::Analyze(method_for(extension, false))
                },
            ),
        },
{
    match ValidFileExtensions::from_path(file_name) {
        None => None,
        Some(ValidFileExtensions::Msix) | Some(ValidFileExtensions::Appx) => Some(
            Step::CheckSignature,
        ),
        Some(ValidFileExtensions::Msi) => Some(Step::Analyze(Method::Msi)),
        Some(ValidFileExtensions::Zip) => Some(Step::Analyze(Method::Zip)),
        Some(ValidFileExtensions::MsixBundle) | Some(ValidFileExtensions::AppxBundle) => Some(
            Step::Analyze(Method::MsixBundle),
        ),
        Some(ValidFileExtensions::Exe) => Some(Step::Analyze(Method::Exe)),
        Some(_) => Some(Step::Analyze(Method::Font)),
    }
}

/// How a package is analyzed once it is known whether it is signed.
pub fn after_signature(signed: bool) -> (r: Method)
    ensures
        r == method_for(ValidFileExtensions::Msix, signed),
        r == method_for(ValidFileExtensions::Appx, signed),
{
    if signed {
        Method::Msix
    } else {
        Method::Zip
    }
}

/// The names of architectures in file names, and what they stand for. Those of 32 bits are left out:
/// the names only correct the architecture of a 32-bit installer stub. Longer names come first, so
/// that the longest that fits at a place is taken.
pub open spec fn file_name_architectures() -> Seq<(Seq<char>, Architecture)> {
    seq![
        ("winarm64"@, Architecture::Arm64),
        ("aarch64"@, Architecture::Arm64),
        ("arm64ec"@, Architecture::Arm64),
        ("x86_64"@, Architecture::X64),
        ("x86-64"@, Architecture::X64),
        ("win64a"@, Architecture::Arm64),
        ("64-bit"@, Architecture::X64),
        ("winx64"@, Architecture::X64),
        ("64bit"@, Architecture::X64),
        ("amd64"@, Architecture::X64),
        ("arm64"@, Architecture::Arm64),
        ("win64"@, Architecture::X64),
        ("ia64"@, Architecture::X64),
        ("x64"@, Architecture::X64),
    ]
}

/// Whether a character may stand beside the name of an architecture.
pub open spec fn is_delimiter(c: char) -> bool {
    c == ',' || c == '.' || c == '_' || c == '-' || c == '(' || c == ')' || c == '+' || c == ' '
}

/// Whether the characters from `at` on start with `name`, and nothing but delimiters stands beside
/// it.
pub open spec fn delimited_at(s: Seq<char>, at: int, name: Seq<char>) -> bool {
    &&& name.is_prefix_of(s.skip(at))
    &&& at == 0 || is_delimiter(s[at - 1])
    &&& at + name.len() == s.len() || is_delimiter(s[at + name.len()])
}

/// What the first of the names that stands at a place means.
pub open spec fn named_at(
    s: Seq<char>,
    at: int,
    names: Seq<(Seq<char>, Architecture)>,
) -> Option<Architecture>
    decreases names.len(),
{
    if names.len() == 0 {
        None
    } else if delimited_at(s, at, names[0].0) {
        Some(names[0].1)
    } else {
        named_at(s, at, names.drop_first())
    }
}

/// What the rightmost name before `end` means.
pub open spec fn rightmost_named(s: Seq<char>, end: int) -> Option<Architecture>
    decreases end,
{
    if end <= 0 {
        None
    } else {
        match named_at(s, end - 1, file_name_architectures()) {
            Some(architecture) => Some(architecture),
            None => rightmost_named(s, end - 1),
        }
    }
}

/// The architecture that a file name tells of, in whatever case.
pub open spec fn file_name_architecture(file_name: Seq<char>) -> Option<Architecture> {
    rightmost_named(lower_text(file_name), file_name.len() as int)
}

fn is_delimiter_char(c: char) -> (r: bool)
    ensures
        r == is_delimiter(c),
{
    c == ',' || c == '.' || c == '_' || c == '-' || c == '(' || c == ')' || c == '+' || c == ' '
}

fn is_delimited_at(chars: &Vec<char>, at: usize, name: &Vec<char>) -> (r: bool)
    requires
        at <= chars.len(),
    ensures
        r == delimited_at(chars@, at as int, name@),
{
    if !matches_at(chars, at, name) {
        return false;
    }
    assert(at + name.len() <= chars.len());
    let end: usize = at + name.len();
    (at == 0 || is_delimiter_char(chars[at - 1])) && (end == chars.len() || is_delimiter_char(
        chars[end],
    ))
}

fn architecture_names() -> (r: Vec<(&'static str, Architecture)>)
    ensures
        r@.map_values(|entry: (&'static str, Architecture)| (entry.0@, entry.1))
            == file_name_architectures(),
{
    let names: Vec<(&'static str, Architecture)> = vec![
        ("winarm64", Architecture::Arm64),
        ("aarch64", Architecture::Arm64),
        ("arm64ec", Architecture::Arm64),
        ("x86_64", Architecture::X64),
        ("x86-64", Architecture::X64),
        ("win64a", Architecture::Arm64),
        ("64-bit", Architecture::X64),
        ("winx64", Architecture::X64),
        ("64bit", Architecture::X64),
        ("amd64", Architecture::X64),
        ("arm64", Architecture::Arm64),
        ("win64", Architecture::X64),
        ("ia64", Architecture::X64),
        ("x64", Architecture::X64),
    ];
    assert(names@.map_values(|entry: (&'static str, Architecture)| (entry.0@, entry.1))
        =~= file_name_architectures());
    names
}

/// The 64-bit or ARM64 architecture that a file name tells of: the rightmost that stands between
/// delimiters.
pub fn architecture_from_file_name(file_name: &str) -> (r: Option<Architecture>)
    ensures
        r == file_name_architecture(file_name@),
{
    let lower = to_ascii_lowercase(file_name);
    let chars = chars_of(lower.as_str());
    let names = architecture_names();
    let ghost table = file_name_architectures();
    let mut end: usize = chars.len();
    while end > 0
        invariant
            end <= chars.len(),
            chars@ == lower_text(file_name@),
            table == file_name_architectures(),
            names@.map_values(|entry: (&'static str, Architecture)| (entry.0@, entry.1)) == table,
            file_name_architecture(file_name@) == rightmost_named(chars@, end as int),
        decreases end,
    {
        let at: usize = end - 1;
        let mut k: usize = 0;
        assert(table.skip(0) =~= table);
        while k < names.len()
            invariant
                k <= names.len(),
                at < chars.len(),
                at + 1 == end,
                table == file_name_architectures(),
                names@.map_values(|entry: (&'static str, Architecture)| (entry.0@, entry.1)) == table,
                file_name_architecture(file_name@) == rightmost_named(chars@, end as int),
                named_at(chars@, at as int, table) == named_at(
                    chars@,
                    at as int,
                    table.skip(k as int),
                ),
            decreases names.len() - k,
        {
            assert(table[k as int] == (names@[k as int].0@, names@[k as int].1));
            assert(table.skip(k as int)[0] == table[k as int]);
            assert(table.skip(k as int).drop_first() =~= table.skip(k + 1));
            let name = chars_of(names[k].0);
            if is_delimited_at(&chars, at, &name) {
                return Some(names[k].1);
            }
            k += 1;
        }
        end -= 1;
    }
    None
}

/// An installer whose architecture is corrected: that of a 32-bit stub gives way to the one that the
/// file name tells of.
pub open spec fn corrected(installer: InstallerView, named: Option<Architecture>) -> InstallerView {
    if installer.architecture == Architecture::X86 && named is Some {
        InstallerView { architecture: named.unwrap(), ..installer }
    } else {
        installer
    }
}

/// Corrects the architecture of the 32-bit installers by the file name. A 64-bit or ARM64
/// application often comes inside a 32-bit stub, and the name tells more than the stub does.
pub fn override_x86_from_file_name(installers: &mut Vec<Installer>, file_name: &str)
    ensures
        installer_views(final(installers)@) == installer_views(old(installers)@).map_values(
            |installer: InstallerView|
                corrected(installer, file_name_architecture(file_name@)),
        ),
{
    let ghost named = file_name_architecture(file_name@);
    let ghost want = installer_views(installers@).map_values(
        |installer: InstallerView| corrected(installer, named),
    );
    let architecture = match architecture_from_file_name(file_name) {
        Some(architecture) => architecture,
        None => {
            assert(want =~= installer_views(installers@));
            return;
        },
    };
    let total: usize = installers.len();
    let mut i: usize = 0;
    while i < total
        invariant
            i <= total == installers@.len() == old(installers)@.len(),
            named == Some(architecture),
            forall|k: int|
                0 <= k < i ==> (#[trigger] installers@[k])@ == corrected(old(installers)@[k]@, named),
            forall|k: int| i <= k < total ==> (#[trigger] installers@[k]) == old(installers)@[k],
        decreases total - i,
    {
        if installers[i].architecture == Architecture::X86 {
            installers[i].architecture = architecture;
        }
        i += 1;
    }
    assert(installer_views(installers@) =~= want);
}

/// How much of a font is told.
#[derive(Clone, Copy, Debug, Eq, PartialEq, Structural)]
pub enum FontAnalysis {
    Skip,
    Version,
    Full,
}

/// What comes of the analysis of a file. `P` is what is told of an executable, `F` of a font, and `Z`
/// is an archive that was opened.
pub struct Analyzer<P, F, Z> {
    pub file_name: String,
    pub copyright: Option<String>,
    pub package_name: Option<String>,
    pub publisher: Option<String>,
    pub file_version: Option<String>,
    pub product_version: Option<String>,
    pub font_version: Option<String>,
    pub font_info: Option<F>,
    pub pe_info: Option<P>,
    pub installers: Vec<Installer>,
    pub zip: Option<Z>,
}

/// What an executable tells.
pub struct ExeFacts<P> {
    pub installers: Vec<Installer>,
    pub legal_copyright: Option<String>,
    pub product_name: Option<String>,
    pub company_name: Option<String>,
    pub file_version: Option<String>,
    pub product_version: Option<String>,
    pub pe_info: Option<P>,
}

/// A text whose length lies between two bounds.
pub open spec fn of_length(text: Option<String>, min: nat, max: nat) -> Option<Seq<char>> {
    match text {
        Some(text) if min <= text@.len() <= max => Some(text@),
        _ => None,
    }
}

impl<P, F, Z> Analyzer<P, F, Z> {
    /// Whether nothing is told but of installers, an executable, a font or an archive.
    pub open spec fn is_bare(self) -> bool {
        &&& self.file_name@.len() == 0
        &&& self.copyright is None
        &&& self.package_name is None
        &&& self.publisher is None
        &&& self.file_version is None
        &&& self.product_version is None
        &&& self.pe_info is None
    }

    /// What comes of a file that tells of its installers only.
    pub fn from_installers(installers: Vec<Installer>) -> (r: Analyzer<P, F, Z>)
        ensures
            r.is_bare(),
            r.font_version is None,
            r.font_info is None,
            r.zip is None,
            r.installers@ == installers@,
    {
        Analyzer {
            file_name: String::new(),
            copyright: None,
            package_name: None,
            publisher: None,
            file_version: None,
            product_version: None,
            font_version: None,
            font_info: None,
            pe_info: None,
            installers,
            zip: None,
        }
    }

    /// What comes of an archive.
    pub fn from_zip(zip: Z, installers: Vec<Installer>) -> (r: Analyzer<P, F, Z>)
        ensures
            r.is_bare(),
            r.font_version is None,
            r.font_info is None,
            r.zip == Some(zip),
            r.installers@ == installers@,
    {
        let mut analyzer = Analyzer::from_installers(installers);
        analyzer.zip = Some(zip);
        analyzer
    }

    /// What comes of an executable: the architecture of its installers corrected by its name, and of
    /// what it says of itself as much as a manifest can hold.
    pub fn from_exe(exe: ExeFacts<P>, file_name: &str) -> (r: Analyzer<P, F, Z>)
        ensures
            r.file_name@.len() == 0,
            installer_views(r.installers@) == installer_views(exe.installers@).map_values(
                |installer: InstallerView|
                    corrected(installer, file_name_architecture(file_name@)),
            ),
            opt_text(r.copyright) == of_length(exe.legal_copyright, 3, 512),
            opt_text(r.package_name) == of_length(exe.product_name, 2, 256),
            opt_text(r.publisher) == of_length(exe.company_name, 2, 256),
            r.file_version == exe.file_version,
            r.product_version == exe.product_version,
            r.pe_info == exe.pe_info,
            r.font_version is None,
            r.font_info is None,
            r.zip is None,
    {
        let mut installers = exe.installers;
        override_x86_from_file_name(&mut installers, file_name);
        Analyzer {
            file_name: String::new(),
            copyright: match exe.legal_copyright {
                Some(text) => parse_copyright(text),
                None => None,
            },
            package_name: match exe.product_name {
                Some(text) => parse_package_name(text),
                None => None,
            },
            publisher: match exe.company_name {
                Some(text) => parse_publisher(text),
                None => None,
            },
            file_version: exe.file_version,
            product_version: exe.product_version,
            font_version: None,
            font_info: None,
            pe_info: exe.pe_info,
            installers,
            zip: None,
        }
    }

    /// What comes of a font: its version, all that it tells, or neither.
    pub fn from_font(
        installers: Vec<Installer>,
        info: Option<F>,
        version: Option<String>,
        analysis: FontAnalysis,
    ) -> (r: Analyzer<P, F, Z>)
        ensures
            r.is_bare(),
            r.zip is None,
            r.installers@ == installers@,
            r.font_version == if analysis == FontAnalysis::Version {
                version
            } else {
                None
            },
            r.font_info == if analysis == FontAnalysis::Full {
                info
            } else {
                None
            },
    {
        let mut analyzer = Analyzer::from_installers(installers);
        match analysis {
            FontAnalysis::Version => {
                analyzer.font_version = version;
            },
            FontAnalysis::Full => {
                analyzer.font_info = info;
            },
            FontAnalysis::Skip => {},
        }
        analyzer
    }

    /// The installers of the file.
    pub fn into_installers(self) -> (r: Vec<Installer>)
        ensures
            r@ == self.installers@,
    {
        self.installers
    }
}

/// Every extension is found again by its name.
pub proof fn law_extension_names(extension: ValidFileExtensions)
    ensures
        named_extension(extension.name()) == Some(extension),
{
    reveal_strlit("msi");
    reveal_strlit("msix");
    reveal_strlit("appx");
    reveal_strlit("msixbundle");
    reveal_strlit("appxbundle");
    reveal_strlit("zip");
    reveal_strlit("exe");
    reveal_strlit("fnt");
    reveal_strlit("otc");
    reveal_strlit("otf");
    reveal_strlit("ttc");
    reveal_strlit("ttf");
    let name = extension.name();
    assert(lower_text(name) =~= name);
    assert("msi"@.len() == 3 && "msi"@[0] == 'm' && "msi"@[1] == 's' && "msi"@[2] == 'i');
    assert("msix"@.len() == 4 && "msix"@[0] == 'm' && "msix"@[1] == 's' && "msix"@[2] == 'i'
        && "msix"@[3] == 'x');
    assert("appx"@.len() == 4 && "appx"@[0] == 'a' && "appx"@[1] == 'p' && "appx"@[2] == 'p'
        && "appx"@[3] == 'x');
    assert("msixbundle"@.len() == 10 && "msixbundle"@[0] == 'm' && "msixbundle"@[1] == 's'
        && "msixbundle"@[2] == 'i' && "msixbundle"@[3] == 'x');
    assert("appxbundle"@.len() == 10 && "appxbundle"@[0] == 'a' && "appxbundle"@[1] == 'p'
        && "appxbundle"@[2] == 'p' && "appxbundle"@[3] == 'x');
    assert("zip"@.len() == 3 && "zip"@[0] == 'z' && "zip"@[1] == 'i' && "zip"@[2] == 'p');
    assert("exe"@.len() == 3 && "exe"@[0] == 'e' && "exe"@[1] == 'x' && "exe"@[2] == 'e');
    assert("fnt"@.len() == 3 && "fnt"@[0] == 'f' && "fnt"@[1] == 'n' && "fnt"@[2] == 't');
    assert("otc"@.len() == 3 && "otc"@[0] == 'o' && "otc"@[1] == 't' && "otc"@[2] == 'c');
    assert("otf"@.len() == 3 && "otf"@[0] == 'o' && "otf"@[1] == 't' && "otf"@[2] == 'f');
    assert("ttc"@.len() == 3 && "ttc"@[0] == 't' && "ttc"@[1] == 't' && "ttc"@[2] == 'c');
    assert("ttf"@.len() == 3 && "ttf"@[0] == 't' && "ttf"@[1] == 't' && "ttf"@[2] == 'f');
}

proof fn lemma_named_at(s: Seq<char>, at: int, names: Seq<(Seq<char>, Architecture)>)
    ensures
        match named_at(s, at, names) {
            Some(architecture) => exists|k: int|
                0 <= k < names.len() && delimited_at(s, at, (#[trigger] names[k]).0) && names[k].1
                    == architecture,
            None => forall|k: int|
                0 <= k < names.len() ==> !delimited_at(s, at, (#[trigger] names[k]).0),
        },
    decreases names.len(),
{
    if names.len() > 0 {
        let rest = names.drop_first();
        lemma_named_at(s, at, rest);
        if !delimited_at(s, at, names[0].0) {
            match named_at(s, at, rest) {
                Some(architecture) => {
                    let k = choose|k: int|
                        0 <= k < rest.len() && delimited_at(s, at, (#[trigger] rest[k]).0)
                            && rest[k].1 == architecture;
                    assert(names[k + 1] == rest[k]);
                },
                None => {
                    assert forall|k: int| 0 <= k < names.len() implies !delimited_at(
                        s,
                        at,
                        (#[trigger] names[k]).0,
                    ) by {
                        if k > 0 {
                            assert(names[k] == rest[k - 1]);
                        }
                    }
                },
            }
        } else {
            assert(delimited_at(s, at, names[0].0));
        }
    }
}

/// Whether the name of an architecture stands at a place.
pub open spec fn is_named_at(s: Seq<char>, at: int) -> bool {
    exists|k: int|
        0 <= k < file_name_architectures().len() && delimited_at(
            s,
            at,
            (#[trigger] file_name_architectures()[k]).0,
        )
}

proof fn lemma_rightmost_named(s: Seq<char>, end: int)
    requires
        0 <= end <= s.len(),
    ensures
        match rightmost_named(s, end) {
            Some(architecture) => exists|at: int|
                0 <= at < end && #[trigger] is_named_at(s, at) && named_at(
                    s,
                    at,
                    file_name_architectures(),
                ) == Some(architecture) && forall|later: int|
                    at < later < end ==> !#[trigger] is_named_at(s, later),
            None => forall|at: int| 0 <= at < end ==> !#[trigger] is_named_at(s, at),
        },
    decreases end,
{
    if end > 0 {
        lemma_rightmost_named(s, end - 1);
        lemma_named_at(s, end - 1, file_name_architectures());
        match named_at(s, end - 1, file_name_architectures()) {
            Some(architecture) => {
                assert(is_named_at(s, end - 1));
            },
            None => {
                assert(!is_named_at(s, end - 1));
            },
        }
    }
}

/// Of the names of architectures in a file name, in whatever case, the rightmost wins: there is none
/// behind the one that counts. Where none counts, there is none.
pub proof fn law_rightmost_architecture(file_name: Seq<char>)
    ensures
        match file_name_architecture(file_name) {
            Some(architecture) => exists|at: int|
                0 <= at < file_name.len() && #[trigger] is_named_at(lower_text(file_name), at)
                    && named_at(lower_text(file_name), at, file_name_architectures()) == Some(
                    architecture,
                ) && forall|later: int|
                    at < later < file_name.len() ==> !#[trigger] is_named_at(
                        lower_text(file_name),
                        later,
                    ),
            None => forall|at: int|
                0 <= at < file_name.len() ==> !#[trigger] is_named_at(lower_text(file_name), at),
        },
{
    lemma_rightmost_named(lower_text(file_name), file_name.len() as int);
}

/// A file name corrects the architecture of a 32-bit installer, and nothing else of any installer.
pub proof fn law_corrected(installer: InstallerView, file_name: Seq<char>)
    ensures
        ({
            let fixed = corrected(installer, file_name_architecture(file_name));
            &&& fixed == (InstallerView { architecture: fixed.architecture, ..installer })
            &&& fixed.architecture != installer.architecture ==> installer.architecture
                == Architecture::X86 && file_name_architecture(file_name) == Some(
                fixed.architecture,
            )
        }),
{
}

} // verus!
