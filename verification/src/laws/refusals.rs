//! What is refused, in what words, and which fault is told where there are several.
use vstd::prelude::*;

use crate::error::ErrorSays;
use crate::selector::{replacement_of, selector_of, version_or, SelectorView};
use crate::source::source_of;
use crate::text::{quoted_text, trimmed};
use crate::types::{InstallerInput, ReplacementSelection, UpdatePackageRequest, VersionInput};
use crate::update::{
    created_version, identifier_of, kind_is_font, mode_submits, plan_of, update_urls, PlanView,
};
use crate::winget::{
    decoded_url, is_package_version, package_identifier_fault, package_version_fault, release_notes_of,
};

verus! {

/// Whether something was refused, in these words, as the fault of the caller.
pub open spec fn is_refused<T>(r: Result<T, ErrorSays>, reason: Seq<char>) -> bool {
    r matches Err(error) && error == ErrorSays::Invalid(reason)
}

/// A text that is a package version is one without the white space around it; another is refused with what it
/// was meant for and what is wrong with it.
pub proof fn law_version_or(text: Seq<char>, otherwise: Seq<char>)
    ensures
        is_package_version(text) ==> version_or(text, otherwise) == Ok::<_, ErrorSays>(trimmed(text)),
        !is_package_version(text) ==> is_refused(
            version_or(text, otherwise),
            otherwise + package_version_fault(text),
        ),
{
}

/// An identifier is the text as it is, unless something is wrong with it, which is told.
pub proof fn law_identifier(text: Seq<char>)
    ensures
        match package_identifier_fault(text) {
            None => identifier_of(text) == Ok::<_, ErrorSays>(text),
            Some(fault) => is_refused(identifier_of(text), "Invalid package identifier: "@ + fault),
        },
{
}

/// Why a version is refused: an explicit one has to have a value, and the value has to be a package version; any
/// other has none; and there are no other sources.
pub proof fn law_refused_version(input: VersionInput)
    ensures
        ({
            let source = match input {
                VersionInput::Text(_) => "explicit"@,
                VersionInput::Selection(selection) => selection.source@,
            };
            let value = match input {
                VersionInput::Text(text) => Some(text@),
                VersionInput::Selection(selection) => match selection.value {
                    Some(text) => Some(text@),
                    None => None,
                },
            };
            let known = source == "explicit"@ || source == "display"@ || source == "product"@ || source
                == "file"@;
            &&& !known ==> is_refused(selector_of(input), "Invalid version source "@ + quoted_text(source))
            &&& source == "explicit"@ && (value matches Some(text) ==> trimmed(text).len() == 0)
                ==> is_refused(
                selector_of(input),
                "version.value is required when version.source is explicit"@,
            )
            &&& source == "explicit"@ && (value matches Some(text) && trimmed(text).len() > 0
                && !is_package_version(trimmed(text))) ==> is_refused(
                selector_of(input),
                "Invalid package version: "@ + package_version_fault(trimmed(value.unwrap())),
            )
            &&& known && source != "explicit"@ && value is Some ==> is_refused(
                selector_of(input),
                "version.value may only be set when version.source is explicit"@,
            )
        }),
{
    reveal_strlit("explicit");
    reveal_strlit("product");
    reveal_strlit("file");
    reveal_strlit("display");
    assert("explicit"@[0] == 'e' && "product"@[0] == 'p' && "file"@[0] == 'f' && "display"@[0] == 'd');
}

/// Why a replacement is refused: a version has to have a value, which has to be a package version; the latest has
/// none; and there are no other targets.
pub proof fn law_refused_replacement(replacement: ReplacementSelection)
    ensures
        ({
            let asked = replacement_of(Some(replacement));
            let target = replacement.target@;
            &&& target != "latest"@ && target != "version"@ ==> is_refused(
                asked,
                "Invalid replacement target "@ + quoted_text(target),
            )
            &&& target == "latest"@ && replacement.value is Some ==> is_refused(
                asked,
                "replace.value may only be set when replace.target is version"@,
            )
            &&& target == "version"@ && (replacement.value matches Some(value) ==> trimmed(value@).len()
                == 0) ==> is_refused(
                asked,
                "replace.value is required when replace.target is version"@,
            )
            &&& target == "version"@ && (replacement.value matches Some(value) && trimmed(value@).len() > 0
                && !is_package_version(trimmed(value@))) ==> is_refused(
                asked,
                "Invalid replacement version: "@ + package_version_fault(
                    trimmed(replacement.value.unwrap()@),
                ),
            )
        }),
{
    reveal_strlit("latest");
    reveal_strlit("version");
    assert("latest"@.len() != "version"@.len());
}

/// Why no version is created: the analysis found none of the kind that was asked for, or what it found is no
/// package version.
pub proof fn law_refused_creation(
    product: Option<Seq<char>>,
    file: Option<Seq<char>>,
    display: Option<Seq<char>>,
)
    ensures
        ({
            let created = created_version(SelectorView::ProductVersion, product, file, display);
            match product {
                None => is_refused(
                    created,
                    "version.source is product, but installer analysis found no ProductVersion"@,
                ),
                Some(text) => !is_package_version(text) ==> is_refused(
                    created,
                    "Invalid ProductVersion: "@ + package_version_fault(text),
                ),
            }
        }),
        ({
            let created = created_version(SelectorView::FileVersion, product, file, display);
            match file {
                None => is_refused(
                    created,
                    "version.source is file, but installer analysis found no FileVersion"@,
                ),
                Some(text) => !is_package_version(text) ==> is_refused(
                    created,
                    "Invalid FileVersion: "@ + package_version_fault(text),
                ),
            }
        }),
        ({
            let created = created_version(SelectorView::DisplayVersion, product, file, display);
            match display {
                None => is_refused(
                    created,
                    "version.source is display, but installer analysis found no DisplayVersion"@,
                ),
                Some(text) => !is_package_version(text) ==> is_refused(
                    created,
                    "Invalid DisplayVersion: "@ + package_version_fault(text),
                ),
            }
        }),
{
}

/// Of the parts of a request, the first that is not valid is told, in this order: the mode, the identifier, the
/// version, the URLs, the URL and the text of the release notes, the replacement, and the kind of package.
pub proof fn law_refused_request(request: UpdatePackageRequest)
    ensures
        ({
            let r = plan_of(request);
            let mode = request.mode@;
            let sources = request.installers@.map_values(|input: InstallerInput| source_of(input));
            let notes_url = match request.release_notes {
                Some(notes) => notes.url,
                None => None,
            };
            let notes_text = match request.release_notes {
                Some(notes) => notes.text,
                None => None,
            };
            if mode != "generate"@ && mode != "submit"@ {
                is_refused(r, "Invalid update mode "@ + quoted_text(mode))
            } else if package_identifier_fault(request.package_identifier@) is Some {
                is_refused(
                    r,
                    "Invalid package identifier: "@ + package_identifier_fault(
                        request.package_identifier@,
                    ).unwrap(),
                )
            } else if selector_of(request.version) is Err {
                r == Err::<PlanView, _>(selector_of(request.version)->Err_0)
            } else if update_urls(sources) is Err {
                r == Err::<PlanView, _>(update_urls(sources)->Err_0)
            } else if notes_url is Some && decoded_url(notes_url.unwrap()@) is Err {
                is_refused(
                    r,
                    "Invalid release notes URL: "@ + decoded_url(notes_url.unwrap()@)->Err_0,
                )
            } else if notes_text is Some && release_notes_of(notes_text.unwrap()@) is Err {
                is_refused(
                    r,
                    "Invalid release notes: "@ + release_notes_of(notes_text.unwrap()@)->Err_0,
                )
            } else if replacement_of(request.replace) is Err {
                r == Err::<PlanView, _>(replacement_of(request.replace)->Err_0)
            } else {
                match request.package_kind {
                    Some(kind) if kind@ != "auto"@ && kind@ != "standard"@ && kind@ != "font"@ => is_refused(
                        r,
                        "Invalid package kind "@ + quoted_text(kind@),
                    ),
                    _ => r is Ok,
                }
            }
        }),
{
    crate::laws::update::law_modes(request.mode@);
    if let Some(kind) = request.package_kind {
        crate::laws::update::law_kinds(kind@);
    }
}

/// A mode or a kind that there is not is refused by its name.
pub proof fn law_refused_names(name: Seq<char>)
    ensures
        name != "generate"@ && name != "submit"@ ==> is_refused(
            mode_submits(name),
            "Invalid update mode "@ + quoted_text(name),
        ),
        name != "auto"@ && name != "standard"@ && name != "font"@ ==> is_refused(
            kind_is_font(Some(name)),
            "Invalid package kind "@ + quoted_text(name),
        ),
{
}

} // verus!
