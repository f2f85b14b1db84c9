//! The names of things in messages, manifests and file names.
use vstd::prelude::*;

use crate::analyzer::{method_for, named_extension, ValidFileExtensions};
use crate::error::ErrorCode;
use crate::manifest::{Architecture, InstallerType, Scope};
use crate::pull_request::PullRequestState;
use crate::search::lower_text;
use crate::source::named_architecture;

verus! {

/// An architecture is called by the name that manifests have for it.
pub proof fn law_architecture_name(architecture: Architecture)
    ensures
        architecture == Architecture::X86 ==> architecture.name() == "x86"@,
        architecture == Architecture::X64 ==> architecture.name() == "x64"@,
        architecture == Architecture::Arm ==> architecture.name() == "arm"@,
        architecture == Architecture::Arm64 ==> architecture.name() == "arm64"@,
        architecture == Architecture::Neutral ==> architecture.name() == "neutral"@,
{
}

/// A name stands for the one architecture that is called so, letter for letter, and no other name stands for
/// any.
pub proof fn law_named_architecture(name: Seq<char>)
    ensures
        named_architecture(name) matches Some(architecture) ==> architecture.name() == name,
        named_architecture(name) is None ==> name != "x86"@ && name != "x64"@ && name != "arm"@ && name
            != "arm64"@ && name != "neutral"@,
{
}

/// An installer type is called by the name that manifests have for it.
pub proof fn law_installer_type_name(installer_type: InstallerType)
    ensures
        installer_type == InstallerType::Msix ==> installer_type.name() == "msix"@,
        installer_type == InstallerType::Msi ==> installer_type.name() == "msi"@,
        installer_type == InstallerType::Appx ==> installer_type.name() == "appx"@,
        installer_type == InstallerType::Exe ==> installer_type.name() == "exe"@,
        installer_type == InstallerType::Inno ==> installer_type.name() == "inno"@,
        installer_type == InstallerType::Nullsoft ==> installer_type.name() == "nullsoft"@,
        installer_type == InstallerType::Wix ==> installer_type.name() == "wix"@,
        installer_type == InstallerType::Burn ==> installer_type.name() == "burn"@,
        installer_type == InstallerType::Pwa ==> installer_type.name() == "pwa"@,
        installer_type == InstallerType::Zip ==> installer_type.name() == "zip"@,
        installer_type == InstallerType::Portable ==> installer_type.name() == "portable"@,
        installer_type == InstallerType::Font ==> installer_type.name() == "font"@,
{
}

/// A scope is called by the name that manifests have for it.
pub proof fn law_scope_name(scope: Scope)
    ensures
        scope == Scope::User ==> scope.name() == "user"@,
        scope == Scope::Machine ==> scope.name() == "machine"@,
{
}

/// The state of a pull request is called by its name.
pub proof fn law_state_name(state: PullRequestState)
    ensures
        state is Open ==> state.name() == "open"@,
        state is Closed ==> state.name() == "closed"@,
        state is Merged ==> state.name() == "merged"@,
{
}

/// The code of an error is called by its name in messages.
pub proof fn law_error_code_name(code: ErrorCode)
    ensures
        code is ClientInitializationFailed ==> code.name() == "CLIENT_INITIALIZATION_FAILED"@,
        code is GitHubAuthRequired ==> code.name() == "GITHUB_AUTH_REQUIRED"@,
        code is AnalysisFailed ==> code.name() == "ANALYSIS_FAILED"@,
        code is PullRequestLookupFailed ==> code.name() == "PULL_REQUEST_LOOKUP_FAILED"@,
        code is ReleaseNotesFetchFailed ==> code.name() == "RELEASE_NOTES_FETCH_FAILED"@,
        code is ReleaseNotesParseFailed ==> code.name() == "RELEASE_NOTES_PARSE_FAILED"@,
        code is UpdateFailed ==> code.name() == "UPDATE_FAILED"@,
        code is YamlParseFailed ==> code.name() == "YAML_PARSE_FAILED"@,
{
}

/// An extension is called by its name.
pub proof fn law_extension_name(extension: ValidFileExtensions)
    ensures
        extension is Msi ==> extension.name() == "msi"@,
        extension is Msix ==> extension.name() == "msix"@,
        extension is Appx ==> extension.name() == "appx"@,
        extension is MsixBundle ==> extension.name() == "msixbundle"@,
        extension is AppxBundle ==> extension.name() == "appxbundle"@,
        extension is Zip ==> extension.name() == "zip"@,
        extension is Exe ==> extension.name() == "exe"@,
        extension is Fnt ==> extension.name() == "fnt"@,
        extension is Otc ==> extension.name() == "otc"@,
        extension is Otf ==> extension.name() == "otf"@,
        extension is Ttc ==> extension.name() == "ttc"@,
        extension is Ttf ==> extension.name() == "ttf"@,
{
}

/// A name, in whatever case, stands for the one extension that is called so in lower case, and no other name
/// stands for any.
pub proof fn law_named_extension(name: Seq<char>)
    ensures
        named_extension(name) matches Some(extension) ==> extension.name() == lower_text(name),
        named_extension(name) is None ==> ({
            let lower = lower_text(name);
            &&& lower != "msi"@ && lower != "msix"@ && lower != "appx"@ && lower != "msixbundle"@
            &&& lower != "appxbundle"@ && lower != "zip"@ && lower != "exe"@ && lower != "fnt"@
            &&& lower != "otc"@ && lower != "otf"@ && lower != "ttc"@ && lower != "ttf"@
        }),
{
}

/// A file is analyzed as what its extension says; an MSIX or APPX package that is not signed is an archive.
pub proof fn law_method(extension: ValidFileExtensions, signed: bool)
    ensures
        method_for(extension, signed) is Msi <==> extension is Msi,
        method_for(extension, signed) is Msix <==> (extension is Msix || extension is Appx) && signed,
        method_for(extension, signed) is Zip <==> extension is Zip || ((extension is Msix
            || extension is Appx) && !signed),
        method_for(extension, signed) is MsixBundle <==> extension is MsixBundle
            || extension is AppxBundle,
        method_for(extension, signed) is Exe <==> extension is Exe,
        method_for(extension, signed) is Font <==> extension is Fnt || extension is Otc || extension is Otf
            || extension is Ttc || extension is Ttf,
{
}

} // verus!
