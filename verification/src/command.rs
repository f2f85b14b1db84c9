//! What the commands decide.
use vstd::prelude::*;
use vstd::string::*;

use crate::manifest::{Installer, InstallerView};
use crate::text::joined;

verus! {

/// What the analysis of a file is written as.
#[derive(Clone, Copy, Debug, Eq, PartialEq, Structural)]
pub enum AnalyzeOutput {
    /// What an executable tells, and its one installer.
    Executable,
    /// What an executable tells, and its installers.
    ExecutableWithInstallers,
    /// What a font tells, and its one installer.
    Font,
    /// One installer.
    Installer,
    /// The installers.
    Installers,
}

/// What the analysis of a file is written as: by whether it tells of an executable or of a font, and
/// by the number of its installers. It cannot tell of both, and a font has one installer.
pub fn analyze_output(executable: bool, font: bool, installers: usize) -> (r: AnalyzeOutput)
    requires
        !(executable && font),
        font ==> installers == 1,
    ensures
        r == if executable && installers == 1 {
            AnalyzeOutput::Executable
        } else if executable {
            AnalyzeOutput::ExecutableWithInstallers
        } else if font {
            AnalyzeOutput::Font
        } else if installers == 1 {
            AnalyzeOutput::Installer
        } else {
            AnalyzeOutput::Installers
        },
{
    if executable {
        if installers == 1 {
            AnalyzeOutput::Executable
        } else {
            AnalyzeOutput::ExecutableWithInstallers
        }
    } else if font {
        AnalyzeOutput::Font
    } else if installers == 1 {
        AnalyzeOutput::Installer
    } else {
        AnalyzeOutput::Installers
    }
}

/// Gives installers the hash of their file, where it was hashed.
pub fn set_hash(installers: &mut Vec<Installer>, sha_256: &Option<String>)
    ensures
        final(installers)@.len() == old(installers)@.len(),
        forall|i: int|
            0 <= i < old(installers)@.len() ==> (#[trigger] final(installers)@[i])@ == match *sha_256 {
                Some(hash) => InstallerView { sha_256: hash@, ..old(installers)@[i]@ },
                None => old(installers)@[i]@,
            },
{
    let total: usize = installers.len();
    let mut i: usize = 0;
    while i < total
        invariant
            i <= total == installers@.len() == old(installers)@.len(),
            forall|k: int|
                0 <= k < i ==> (#[trigger] installers@[k])@ == match *sha_256 {
                    Some(hash) => InstallerView { sha_256: hash@, ..old(installers)@[k]@ },
                    None => old(installers)@[k]@,
                },
            forall|k: int| i <= k < total ==> (#[trigger] installers@[k]) == old(installers)@[k],
        decreases total - i,
    {
        if let Some(hash) = sha_256 {
            installers[i].sha_256 = hash.clone();
        }
        i += 1;
    }
}

/// The shell that a completion script is for: the one that is named, or else the one that the
/// environment tells of.
pub fn completion_shell<T>(named: Option<T>, detected: Option<T>) -> (r: Result<T, &'static str>)
    ensures
        match (named, detected) {
            (Some(shell), _) => r == Ok::<T, &'static str>(shell),
            (None, Some(shell)) => r == Ok::<T, &'static str>(shell),
            (None, None) => r matches Err(message) && message@
                == "Unable to determine the current shell from the environment"@,
        },
{
    match named {
        Some(shell) => Ok(shell),
        None => match detected {
            Some(shell) => Ok(shell),
            None => Err("Unable to determine the current shell from the environment"),
        },
    }
}

/// A path that is to be that of a file, or the message that it is not.
pub fn is_valid_file(path: &str, found: bool, is_file: bool) -> (r: Result<String, String>)
    ensures
        if !found {
            r matches Err(message) && message@ == path@ + " does not exist"@
        } else if !is_file {
            r matches Err(message) && message@ == path@ + " is not a file"@
        } else {
            r matches Ok(kept) && kept@ == path@
        },
{
    if !found {
        Err(joined(path, " does not exist"))
    } else if !is_file {
        Err(joined(path, " is not a file"))
    } else {
        Ok(path.to_owned())
    }
}

} // verus!
