//! Which version an update creates, and which it replaces.
use vstd::prelude::*;
use vstd::string::*;

use crate::error::{AnthelionError, AnthelionResult, ErrorCode, ErrorSays};
use crate::search::{eq_ignore_ascii_case, same_ignoring_case};
use crate::text::{
    joined, lemma_trimmed_at, opt_text, quoted, quoted_text, str_eq, texts, trim, trimmed,
};
use crate::types::{ReplacementSelection, VersionInput, VersionSelection};
use crate::versions::{is_listed, lists, ordered_versions, version_set};
use crate::winget::{
    closest_of, closest_version, is_disallowed, is_package_version, package_version_fault,
    parse_package_version,
};

verus! {

/// Where the version that an update creates comes from.
#[derive(Debug)]
pub enum VersionSelector {
    Explicit(String),
    ProductVersion,
    FileVersion,
    DisplayVersion,
}

/// What a [`VersionSelector`] says.
pub enum SelectorView {
    Explicit(Seq<char>),
    ProductVersion,
    FileVersion,
    DisplayVersion,
}

impl View for VersionSelector {
    type V = SelectorView;

    open spec fn view(&self) -> SelectorView {
        match self {
            VersionSelector::Explicit(version) => SelectorView::Explicit(version@),
            VersionSelector::ProductVersion => SelectorView::ProductVersion,
            VersionSelector::FileVersion => SelectorView::FileVersion,
            VersionSelector::DisplayVersion => SelectorView::DisplayVersion,
        }
    }
}

/// The package version that a text is, or an error that says what the text was meant for.
pub open spec fn version_or(text: Seq<char>, otherwise: Seq<char>) -> Result<Seq<char>, ErrorSays> {
    if is_package_version(text) {
        Ok(trimmed(text))
    } else {
        Err(ErrorSays::Invalid(otherwise + package_version_fault(text)))
    }
}

/// The package version that a text is, or an error that says what the text was meant for.
pub fn package_version_or(text: &str, otherwise: &str) -> (r: AnthelionResult<String>)
    ensures
        version_or(text@, otherwise@) == match r {
            Ok(version) => Ok::<Seq<char>, ErrorSays>(version@),
            Err(error) => Err(error@),
        },
{
    match parse_package_version(text) {
        Ok(version) => Ok(version),
        Err(fault) => Err(AnthelionError::invalid(joined(otherwise, fault.as_str()))),
    }
}

/// A value that is more than white space, without the white space around it.
pub open spec fn filled(value: Option<Seq<char>>) -> Option<Seq<char>> {
    match value {
        Some(value) if trimmed(value).len() > 0 => Some(trimmed(value)),
        _ => None,
    }
}

fn filled_text(value: &Option<String>) -> (r: Option<String>)
    ensures
        opt_text(r) == filled(opt_text(*value)),
{
    match value {
        Some(value) => {
            let value = trim(value.as_str());
            if value.as_str().unicode_len() > 0 {
                Some(value)
            } else {
                None
            }
        },
        None => None,
    }
}

/// Where a version comes from, by the name of its source and its value.
pub open spec fn selected(source: Seq<char>, value: Option<Seq<char>>) -> Result<
    SelectorView,
    ErrorSays,
> {
    if source == "explicit"@ {
        match filled(value) {
            None => Err(
                ErrorSays::Invalid(
                    "version.value is required when version.source is explicit"@,
                ),
            ),
            Some(text) => match version_or(text, "Invalid package version: "@) {
                Ok(version) => Ok(SelectorView::Explicit(version)),
                Err(error) => Err(error),
            },
        }
    } else if source == "display"@ || source == "product"@ || source == "file"@ {
        if value is Some {
            Err(
                ErrorSays::Invalid(
                    "version.value may only be set when version.source is explicit"@,
                ),
            )
        } else if source == "display"@ {
            Ok(SelectorView::DisplayVersion)
        } else if source == "product"@ {
            Ok(SelectorView::ProductVersion)
        } else {
            Ok(SelectorView::FileVersion)
        }
    } else {
        Err(ErrorSays::Invalid("Invalid version source "@ + quoted_text(source)))
    }
}

/// Where a version comes from. A bare text is an explicit version.
pub open spec fn selector_of(input: VersionInput) -> Result<SelectorView, ErrorSays> {
    match input {
        VersionInput::Text(value) => selected("explicit"@, Some(value@)),
        VersionInput::Selection(selection) => selected(
            selection.source@,
            opt_text(selection.value),
        ),
    }
}

/// Where a version comes from.
pub fn parse_version_selector(input: VersionInput) -> (r: AnthelionResult<VersionSelector>)
    ensures
        selector_of(input) == match r {
            Ok(selector) => Ok::<SelectorView, ErrorSays>(selector@),
            Err(error) => Err(error@),
        },
{
    let selection = match input {
        VersionInput::Text(value) => VersionSelection {
            source: "explicit".to_owned(),
            value: Some(value),
        },
        VersionInput::Selection(selection) => selection,
    };
    let source = selection.source.as_str();
    if str_eq(source, "explicit") {
        match filled_text(&selection.value) {
            None => Err(
                AnthelionError::invalid(
                    "version.value is required when version.source is explicit".to_owned(),
                ),
            ),
            Some(text) => Ok(
                VersionSelector::Explicit(
                    package_version_or(text.as_str(), "Invalid package version: ")?,
                ),
            ),
        }
    } else if str_eq(source, "display") || str_eq(source, "product") || str_eq(source, "file") {
        if selection.value.is_some() {
            return Err(
                AnthelionError::invalid(
                    "version.value may only be set when version.source is explicit".to_owned(),
                ),
            );
        }
        if str_eq(source, "display") {
            Ok(VersionSelector::DisplayVersion)
        } else if str_eq(source, "product") {
            Ok(VersionSelector::ProductVersion)
        } else {
            Ok(VersionSelector::FileVersion)
        }
    } else {
        Err(AnthelionError::invalid(joined("Invalid version source ", quoted(source).as_str())))
    }
}

/// The version that a replacement asks for. That of the target `latest` is called `latest`.
pub open spec fn replacement_of(replacement: Option<ReplacementSelection>) -> Result<
    Option<Seq<char>>,
    ErrorSays,
> {
    match replacement {
        None => Ok(None),
        Some(replacement) => {
            let value = opt_text(replacement.value);
            if replacement.target@ == "latest"@ {
                if value is Some {
                    Err(
                        ErrorSays::Invalid(
                            "replace.value may only be set when replace.target is version"@,
                        ),
                    )
                } else {
                    Ok(Some("latest"@))
                }
            } else if replacement.target@ == "version"@ {
                match filled(value) {
                    None => Err(
                        ErrorSays::Invalid(
                            "replace.value is required when replace.target is version"@,
                        ),
                    ),
                    Some(text) => match version_or(text, "Invalid replacement version: "@) {
                        Ok(version) => Ok(Some(version)),
                        Err(error) => Err(error),
                    },
                }
            } else {
                Err(
                    ErrorSays::Invalid(
                        "Invalid replacement target "@ + quoted_text(replacement.target@),
                    ),
                )
            }
        },
    }
}

proof fn lemma_latest_is_version()
    ensures
        is_package_version("latest"@),
        trimmed("latest"@) == "latest"@,
{
    reveal_strlit("latest");
    let s = "latest"@;
    assert(forall|i: int| 0 <= i < s.len() ==> !is_disallowed(#[trigger] s[i]));
    lemma_trimmed_at(s, 0, s.len() as int);
    assert(s.subrange(0, s.len() as int) =~= s);
}

/// The version that a replacement asks for.
pub fn parse_replacement(replacement: Option<ReplacementSelection>) -> (r: AnthelionResult<
    Option<String>,
>)
    ensures
        replacement_of(replacement) == match r {
            Ok(version) => Ok::<Option<Seq<char>>, ErrorSays>(opt_text(version)),
            Err(error) => Err(error@),
        },
{
    let replacement = match replacement {
        Some(replacement) => replacement,
        None => {
            return Ok(None);
        },
    };
    let target = replacement.target.as_str();
    if str_eq(target, "latest") {
        if replacement.value.is_some() {
            return Err(
                AnthelionError::invalid(
                    "replace.value may only be set when replace.target is version".to_owned(),
                ),
            );
        }
        proof {
            lemma_latest_is_version();
        }
        match parse_package_version("latest") {
            Ok(version) => Ok(Some(version)),
            Err(_) => Err(
                AnthelionError::failure(
                    ErrorCode::UpdateFailed,
                    "Failed to create latest-version selector".to_owned(),
                ),
            ),
        }
    } else if str_eq(target, "version") {
        match filled_text(&replacement.value) {
            None => Err(
                AnthelionError::invalid(
                    "replace.value is required when replace.target is version".to_owned(),
                ),
            ),
            Some(text) => Ok(
                Some(package_version_or(text.as_str(), "Invalid replacement version: ")?),
            ),
        }
    } else {
        Err(
            AnthelionError::invalid(joined("Invalid replacement target ", quoted(target).as_str())),
        )
    }
}

/// Whether a version stands for the latest one.
pub open spec fn is_latest_text(version: Seq<char>) -> bool {
    same_ignoring_case(version, "latest"@)
}

/// Whether a version stands for the latest one.
pub fn is_latest(version: &str) -> (r: bool)
    ensures
        r == is_latest_text(version@),
{
    eq_ignore_ascii_case(version, "latest")
}

/// The version that is to be replaced: the latest, where that is asked for, and none where it is the
/// version that is created.
pub open spec fn to_replace(
    replace: Option<Seq<char>>,
    latest: Seq<char>,
    package_version: Seq<char>,
) -> Option<Seq<char>> {
    match replace {
        None => None,
        Some(version) => {
            let version = if is_latest_text(version) {
                latest
            } else {
                version
            };
            if version == package_version {
                None
            } else {
                Some(version)
            }
        },
    }
}

/// The message of a version that cannot be replaced.
pub open spec fn missing_version(version: Seq<char>, closest: Option<Seq<char>>) -> Seq<char> {
    match closest {
        Some(closest) => "Replacement version "@ + version
            + " does not exist. The closest version is "@ + closest,
        None => "Replacement version "@ + version + " does not exist"@,
    }
}

/// The version that is replaced, which has to exist. The versions that exist are taken in their order.
pub open spec fn replaced_version(
    replace: Option<Seq<char>>,
    versions: Seq<Seq<char>>,
    latest: Seq<char>,
    package_version: Seq<char>,
) -> Result<Option<Seq<char>>, Seq<char>> {
    match to_replace(replace, latest, package_version) {
        None => Ok(None),
        Some(version) => {
            let set = version_set(versions);
            if lists(set, version) {
                Ok(Some(version))
            } else {
                Err(missing_version(version, closest_of(version, set)))
            }
        },
    }
}

/// The message of a version that cannot be replaced.
pub fn missing_version_message(version: &str, closest: &Option<String>) -> (r: String)
    ensures
        r@ == missing_version(version@, opt_text(*closest)),
{
    let mut message = joined("Replacement version ", version);
    match closest {
        Some(closest) => {
            message.append(" does not exist. The closest version is ");
            message.append(closest.as_str());
        },
        None => {
            message.append(" does not exist");
        },
    }
    message
}

/// The version that is replaced, which has to be one of those that exist.
pub fn resolve_replace_version(
    replace: &Option<String>,
    versions: &Vec<String>,
    latest_version: &str,
    package_version: &str,
) -> (r: Result<Option<String>, String>)
    ensures
        replaced_version(
            opt_text(*replace),
            texts(versions@),
            latest_version@,
            package_version@,
        ) == match r {
            Ok(version) => Ok::<Option<Seq<char>>, Seq<char>>(opt_text(version)),
            Err(message) => Err(message@),
        },
{
    let version = match replace {
        None => {
            return Ok(None);
        },
        Some(version) => if is_latest(version.as_str()) {
            latest_version
        } else {
            version.as_str()
        },
    };
    if str_eq(version, package_version) {
        return Ok(None);
    }
    let set = ordered_versions(versions);
    if is_listed(&set, version) {
        return Ok(Some(version.to_owned()));
    }
    let closest = closest_version(version, &set);
    assert(opt_text(closest) == closest_of(version@, texts(set@)));
    Err(missing_version_message(version, &closest))
}

/// A replacement of the target `latest` asks for the latest version, and one that an update of that
/// very version asks for replaces nothing.
pub proof fn law_latest_replacement(
    replacement: ReplacementSelection,
    versions: Seq<Seq<char>>,
    latest: Seq<char>,
    package_version: Seq<char>,
)
    requires
        replacement.target@ == "latest"@,
        replacement.value is None,
    ensures
        replacement_of(Some(replacement)) matches Ok(Some(version)) && is_latest_text(version)
            && to_replace(Some(version), latest, package_version) == if latest == package_version {
            None
        } else {
            Some(latest)
        },
{
}

/// What is replaced exists, and is not the version that is created.
pub proof fn law_replaced_version(
    replace: Option<Seq<char>>,
    versions: Seq<Seq<char>>,
    latest: Seq<char>,
    package_version: Seq<char>,
)
    ensures
        replaced_version(replace, versions, latest, package_version) matches Ok(Some(version)) ==> {
            &&& replace is Some
            &&& version != package_version
            &&& lists(version_set(versions), version)
        },
{
}

} // verus!
