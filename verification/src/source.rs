//! The installers that a caller names, and what their analysis comes to.
use vstd::prelude::*;
use vstd::string::*;

use crate::error::{AnthelionError, AnthelionResult, ErrorSays};
use crate::manifest::{copy_option, copy_strings, Architecture, Installer};
use crate::search::{replace, replaced};
use crate::text::{joined, opt_text, quoted, quoted_text, str_eq, texts, trim, trimmed};
use crate::types::{InstallerInput, InstallerSource};
use crate::winget::{decoded_url, parse_decoded_url, parse_plain_url, plain_url};

verus! {

/// The URL of an installer.
#[derive(Debug)]
pub struct Url {
    /// The URL with its percent-encoding taken off.
    pub decoded: String,
    /// The URL as it was given.
    pub original: String,
    /// The host of the decoded URL.
    pub host: Option<String>,
    /// The architecture that was given with the URL.
    pub architecture: Option<Architecture>,
}

/// What a [`Url`] says.
#[verifier::ext_equal]
pub struct UrlView {
    pub decoded: Seq<char>,
    pub original: Seq<char>,
    pub host: Option<Seq<char>>,
    pub architecture: Option<Architecture>,
}

impl View for Url {
    type V = UrlView;

    open spec fn view(&self) -> UrlView {
        UrlView {
            decoded: self.decoded@,
            original: self.original@,
            host: opt_text(self.host),
            architecture: self.architecture,
        }
    }
}

impl Url {
    /// The URL with its percent-encoding taken off.
    pub fn as_str(&self) -> (r: &str)
        ensures
            r@ == self@.decoded,
    {
        self.decoded.as_str()
    }

    /// The URL as it was given.
    pub fn original_url(&self) -> (r: &str)
        ensures
            r@ == self@.original,
    {
        self.original.as_str()
    }

    /// The architecture that was given with the URL.
    pub fn override_architecture(&self) -> (r: Option<Architecture>)
        ensures
            r == self@.architecture,
    {
        self.architecture
    }

    /// A URL that says the same.
    pub fn copy(&self) -> (r: Url)
        ensures
            r@ == self@,
    {
        Url {
            decoded: self.decoded.clone(),
            original: self.original.clone(),
            host: copy_option(&self.host),
            architecture: self.architecture,
        }
    }
}

/// The source that an input stands for.
pub open spec fn source_of(input: InstallerInput) -> InstallerSource {
    match input {
        InstallerInput::Url(url) => InstallerSource {
            url,
            architecture: None,
            nested_installer_matches: None,
        },
        InstallerInput::Source(source) => source,
    }
}

/// The sources that the inputs stand for, in their order.
pub fn normalize_installer_inputs(inputs: Vec<InstallerInput>) -> (r: Vec<InstallerSource>)
    ensures
        r@ == inputs@.map_values(|input: InstallerInput| source_of(input)),
{
    let ghost given = inputs@;
    let ghost want = given.map_values(|input: InstallerInput| source_of(input));
    let mut out: Vec<InstallerSource> = Vec::new();
    for input in it: inputs.into_iter()
        invariant
            it.seq() == given,
            want == given.map_values(|input: InstallerInput| source_of(input)),
            out@ == want.take(it.index() as int),
    {
        let ghost i = it.index() as int;
        assert(want[i] == source_of(input));
        let source = match input {
            InstallerInput::Url(url) => InstallerSource {
                url,
                architecture: None,
                nested_installer_matches: None,
            },
            InstallerInput::Source(source) => source,
        };
        out.push(source);
        assert(want.take(i + 1) =~= want.take(i).push(want[i]));
    }
    assert(want.take(given.len() as int) =~= want);
    out
}

/// The URL with its pipes escaped, so that none is taken for what separates an architecture.
pub open spec fn escaped_url(url: Seq<char>) -> Seq<char> {
    replaced(url, "|"@, "%7C"@)
}

/// The installer URL that a text is, given what the parsers make of it.
pub open spec fn url_outcome(
    url: Seq<char>,
    decoded: Result<(Seq<char>, Option<Seq<char>>), Seq<char>>,
    plain: Result<Seq<char>, Seq<char>>,
) -> Result<UrlView, ErrorSays> {
    match (decoded, plain) {
        (Ok((text, host)), Ok(original)) => Ok(
            UrlView { decoded: text, original, host, architecture: None },
        ),
        (Err(fault), _) => Err(
            ErrorSays::Invalid("Invalid installer URL "@ + quoted_text(url) + ": "@ + fault),
        ),
        (_, Err(fault)) => Err(
            ErrorSays::Invalid("Invalid installer URL "@ + quoted_text(url) + ": "@ + fault),
        ),
    }
}

/// The installer URL that a text is.
pub open spec fn installer_url(input: Seq<char>) -> Result<UrlView, ErrorSays> {
    let url = trimmed(input);
    if url.len() == 0 {
        Err(ErrorSays::Invalid("Installer URLs must not be empty"@))
    } else {
        url_outcome(url, decoded_url(escaped_url(url)), plain_url(escaped_url(url)))
    }
}

fn invalid_url(url: &str, fault: &str) -> (r: AnthelionError)
    ensures
        r@ == ErrorSays::Invalid("Invalid installer URL "@ + quoted_text(url@) + ": "@ + fault@),
{
    let mut message = joined("Invalid installer URL ", quoted(url).as_str());
    message.append(": ");
    message.append(fault);
    AnthelionError::invalid(message)
}

/// The installer URL that a text is, given what the parsers make of it.
pub fn settle_url(
    url: &str,
    decoded: Result<(String, Option<String>), String>,
    plain: Result<String, String>,
) -> (r: AnthelionResult<Url>)
    ensures
        ({
            let decoded_view = match decoded {
                Ok((text, host)) => Ok::<(Seq<char>, Option<Seq<char>>), Seq<char>>(
                    (text@, opt_text(host)),
                ),
                Err(fault) => Err(fault@),
            };
            let plain_view = match plain {
                Ok(text) => Ok::<Seq<char>, Seq<char>>(text@),
                Err(fault) => Err(fault@),
            };
            match r {
                Ok(parsed) => url_outcome(url@, decoded_view, plain_view) == Ok::<_, ErrorSays>(
                    parsed@,
                ),
                Err(error) => url_outcome(url@, decoded_view, plain_view) == Err::<UrlView, _>(
                    error@,
                ),
            }
        }),
{
    match decoded {
        Ok((text, host)) => match plain {
            Ok(original) => Ok(Url { decoded: text, original, host, architecture: None }),
            Err(fault) => Err(invalid_url(url, fault.as_str())),
        },
        Err(fault) => Err(invalid_url(url, fault.as_str())),
    }
}

/// The installer URL that a text is. A pipe in it is part of the URL: the architecture is given
/// apart from it.
pub fn parse_installer_url(input: &str) -> (r: AnthelionResult<Url>)
    ensures
        installer_url(input@) == match r {
            Ok(url) => Ok::<UrlView, ErrorSays>(url@),
            Err(error) => Err(error@),
        },
{
    proof {
        reveal_strlit("|");
    }
    let url = trim(input);
    if url.as_str().unicode_len() == 0 {
        return Err(AnthelionError::invalid("Installer URLs must not be empty".to_owned()));
    }
    let escaped = replace(url.as_str(), "|", "%7C");
    settle_url(
        url.as_str(),
        parse_decoded_url(escaped.as_str()),
        parse_plain_url(escaped.as_str()),
    )
}

/// The architecture that a name stands for.
pub open spec fn named_architecture(name: Seq<char>) -> Option<Architecture> {
    if name == "x86"@ {
        Some(Architecture::X86)
    } else if name == "x64"@ {
        Some(Architecture::X64)
    } else if name == "arm"@ {
        Some(Architecture::Arm)
    } else if name == "arm64"@ {
        Some(Architecture::Arm64)
    } else if name == "neutral"@ {
        Some(Architecture::Neutral)
    } else {
        None
    }
}

/// The architecture that a name stands for.
pub fn parse_architecture(input: &str) -> (r: AnthelionResult<Architecture>)
    ensures
        match named_architecture(input@) {
            Some(architecture) => r == Ok::<Architecture, AnthelionError>(architecture),
            None => r matches Err(error) && error@ == ErrorSays::Invalid(
                "Invalid installer architecture "@ + quoted_text(input@),
            ),
        },
{
    if str_eq(input, "x86") {
        Ok(Architecture::X86)
    } else if str_eq(input, "x64") {
        Ok(Architecture::X64)
    } else if str_eq(input, "arm") {
        Ok(Architecture::Arm)
    } else if str_eq(input, "arm64") {
        Ok(Architecture::Arm64)
    } else if str_eq(input, "neutral") {
        Ok(Architecture::Neutral)
    } else {
        Err(
            AnthelionError::invalid(
                joined("Invalid installer architecture ", quoted(input).as_str()),
            ),
        )
    }
}

/// What one analysis is made of: a URL, and the rules that pick installers inside an archive.
#[derive(Clone, Debug, Eq, Hash, PartialEq)]
pub struct AnalysisKey {
    pub url: String,
    pub nested_installer_matches: Vec<String>,
}

/// What an [`AnalysisKey`] says.
#[verifier::ext_equal]
pub struct KeyView {
    pub url: Seq<char>,
    pub nested_installer_matches: Seq<Seq<char>>,
}

impl View for AnalysisKey {
    type V = KeyView;

    open spec fn view(&self) -> KeyView {
        KeyView {
            url: self.url@,
            nested_installer_matches: texts(self.nested_installer_matches@),
        }
    }
}

/// A source whose URL and architecture are known to be valid.
#[derive(Debug)]
pub struct ParsedSource {
    pub url: Url,
    pub architecture: Option<Architecture>,
    pub nested_installer_matches: Vec<String>,
}

/// What a [`ParsedSource`] says.
#[verifier::ext_equal]
pub struct ParsedView {
    pub url: UrlView,
    pub architecture: Option<Architecture>,
    pub nested_installer_matches: Seq<Seq<char>>,
}

impl View for ParsedSource {
    type V = ParsedView;

    open spec fn view(&self) -> ParsedView {
        ParsedView {
            url: self.url@,
            architecture: self.architecture,
            nested_installer_matches: texts(self.nested_installer_matches@),
        }
    }
}

/// What a list of parsed sources says.
pub open spec fn parsed_views(sources: Seq<ParsedSource>) -> Seq<ParsedView> {
    sources.map_values(|source: ParsedSource| source@)
}

impl ParsedView {
    /// The analysis that the source needs.
    pub open spec fn key(self) -> KeyView {
        KeyView { url: self.url.original, nested_installer_matches: self.nested_installer_matches }
    }
}

impl ParsedSource {
    /// The analysis that the source needs.
    pub fn key(&self) -> (r: AnalysisKey)
        ensures
            r@ == self@.key(),
    {
        AnalysisKey {
            url: self.url.original.clone(),
            nested_installer_matches: copy_strings(&self.nested_installer_matches),
        }
    }
}

/// The parsed form of a source: its URL is looked at before its architecture.
pub open spec fn parsed_source(source: InstallerSource) -> Result<ParsedView, ErrorSays> {
    match installer_url(source.url@) {
        Err(error) => Err(error),
        Ok(url) => {
            let nested_installer_matches = match source.nested_installer_matches {
                Some(matches) => texts(matches@),
                None => Seq::empty(),
            };
            match source.architecture {
                None => Ok(ParsedView { url, architecture: None, nested_installer_matches }),
                Some(name) => match named_architecture(name@) {
                    Some(architecture) => Ok(
                        ParsedView {
                            url,
                            architecture: Some(architecture),
                            nested_installer_matches,
                        },
                    ),
                    None => Err(
                        ErrorSays::Invalid(
                            "Invalid installer architecture "@ + quoted_text(name@),
                        ),
                    ),
                },
            }
        },
    }
}

/// The parsed forms of sources, or the error of the first that is not valid.
pub open spec fn parsed_each(sources: Seq<InstallerSource>) -> Result<Seq<ParsedView>, ErrorSays>
    decreases sources.len(),
{
    if sources.len() == 0 {
        Ok(Seq::empty())
    } else {
        match parsed_each(sources.drop_last()) {
            Err(error) => Err(error),
            Ok(before) => match parsed_source(sources.last()) {
                Err(error) => Err(error),
                Ok(source) => Ok(before.push(source)),
            },
        }
    }
}

/// The parsed forms of at least one source.
pub open spec fn parsed_sources(sources: Seq<InstallerSource>) -> Result<
    Seq<ParsedView>,
    ErrorSays,
> {
    if sources.len() == 0 {
        Err(ErrorSays::Invalid("At least one installer is required"@))
    } else {
        parsed_each(sources)
    }
}

fn parse_source(source: InstallerSource) -> (r: AnthelionResult<ParsedSource>)
    ensures
        parsed_source(source) == match r {
            Ok(parsed) => Ok::<ParsedView, ErrorSays>(parsed@),
            Err(error) => Err(error@),
        },
{
    let url = parse_installer_url(source.url.as_str())?;
    let architecture = match &source.architecture {
        Some(name) => Some(parse_architecture(name.as_str())?),
        None => None,
    };
    let nested_installer_matches: Vec<String> = match source.nested_installer_matches {
        Some(matches) => matches,
        None => Vec::new(),
    };
    let parsed = ParsedSource { url, architecture, nested_installer_matches };
    assert(source.nested_installer_matches is None ==> texts(parsed.nested_installer_matches@)
        =~= Seq::<Seq<char>>::empty());
    Ok(parsed)
}

proof fn lemma_parsed_each_error(sources: Seq<InstallerSource>, i: int)
    requires
        0 <= i <= sources.len(),
        parsed_each(sources.take(i)) is Err,
    ensures
        parsed_each(sources) == parsed_each(sources.take(i)),
    decreases sources.len() - i,
{
    if i < sources.len() {
        assert(sources.take(i + 1).drop_last() =~= sources.take(i));
        lemma_parsed_each_error(sources, i + 1);
    } else {
        assert(sources.take(i) =~= sources);
    }
}

/// Parses the sources, in their order.
pub fn parse_sources(sources: Vec<InstallerSource>) -> (r: AnthelionResult<Vec<ParsedSource>>)
    ensures
        parsed_sources(sources@) == match r {
            Ok(parsed) => Ok::<Seq<ParsedView>, ErrorSays>(parsed_views(parsed@)),
            Err(error) => Err(error@),
        },
{
    if sources.len() == 0 {
        return Err(AnthelionError::invalid("At least one installer is required".to_owned()));
    }
    let ghost given = sources@;
    let mut out: Vec<ParsedSource> = Vec::new();
    assert(parsed_views(out@) =~= Seq::empty());
    assert(given.take(0) =~= Seq::empty());
    for source in it: sources.into_iter()
        invariant
            it.seq() == given,
            given.len() > 0,
            parsed_each(given.take(it.index() as int)) == Ok::<_, ErrorSays>(parsed_views(out@)),
    {
        let ghost i = it.index() as int;
        let ghost before = parsed_views(out@);
        let ghost upto = given.take(i + 1);
        assert(upto.drop_last() =~= given.take(i));
        assert(upto.last() == source);
        match parse_source(source) {
            Ok(parsed) => {
                out.push(parsed);
                assert(parsed_views(out@) =~= before.push(parsed@));
            },
            Err(error) => {
                proof {
                    lemma_parsed_each_error(given, i + 1);
                }
                return Err(error);
            },
        }
    }
    assert(given.take(given.len() as int) =~= given);
    Ok(out)
}

/// No pipe is left in a URL whose pipes are escaped.
pub proof fn law_escaped_url(url: Seq<char>)
    ensures
        forall|i: int| 0 <= i < escaped_url(url).len() ==> #[trigger] escaped_url(url)[i] != '|',
    decreases url.len(),
{
    reveal_strlit("|");
    reveal_strlit("%7C");
    if url.len() > 0 {
        if "|"@.is_prefix_of(url) {
            let rest = url.skip(1);
            law_escaped_url(rest);
            assert(escaped_url(url) == "%7C"@ + escaped_url(rest));
        } else {
            let rest = url.drop_first();
            law_escaped_url(rest);
            assert(escaped_url(url) == seq![url[0]] + escaped_url(rest));
            if url[0] == '|' {
                assert("|"@ =~= url.subrange(0, 1));
            }
        }
    }
}

/// Every architecture is found again by its name.
pub proof fn law_architecture_names(architecture: Architecture)
    ensures
        named_architecture(architecture.name()) == Some(architecture),
{
    reveal_strlit("x86");
    reveal_strlit("x64");
    reveal_strlit("arm");
    reveal_strlit("arm64");
    reveal_strlit("neutral");
    assert("x86"@[1] == '8' && "x64"@[1] == '6');
    assert("arm"@.len() == 3 && "arm"@[0] == 'a' && "x86"@[0] == 'x' && "x64"@[0] == 'x');
    assert("arm64"@.len() == 5 && "neutral"@.len() == 7 && "x86"@.len() == 3 && "x64"@.len() == 3);
}

proof fn lemma_parsed_each(sources: Seq<InstallerSource>)
    ensures
        match parsed_each(sources) {
            Ok(parsed) => parsed.len() == sources.len() && forall|i: int|
                0 <= i < sources.len() ==> parsed_source(#[trigger] sources[i]) == Ok::<_, ErrorSays>(
                    parsed[i],
                ),
            Err(error) => error is Invalid,
        },
    decreases sources.len(),
{
    if sources.len() > 0 {
        let before = sources.drop_last();
        lemma_parsed_each(before);
        if let Ok(parsed) = parsed_each(sources) {
            assert forall|i: int| 0 <= i < sources.len() implies parsed_source(#[trigger] sources[i])
                == Ok::<_, ErrorSays>(parsed[i]) by {
                if i < before.len() {
                    assert(before[i] == sources[i]);
                }
            }
        }
    }
}

/// Sources are parsed each for itself, in their order. What is wrong with one is the caller's fault.
pub proof fn law_parsed_sources(sources: Seq<InstallerSource>)
    ensures
        match parsed_sources(sources) {
            Ok(parsed) => 0 < parsed.len() == sources.len() && forall|i: int|
                0 <= i < sources.len() ==> parsed_source(#[trigger] sources[i]) == Ok::<_, ErrorSays>(
                    parsed[i],
                ),
            Err(error) => error is Invalid,
        },
{
    lemma_parsed_each(sources);
}

} // verus!
