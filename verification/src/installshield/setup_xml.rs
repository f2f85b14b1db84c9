//! The file `Setup.xml`.
use vstd::prelude::*;
use vstd::string::*;

use crate::manifest::copy_option;
use crate::text::{opt_text, str_eq};

verus! {

/// What `Setup.xml` says.
#[derive(Debug)]
pub struct SetupXml {
    pub suite_id: String,
    pub arp_info: ArpInfo,
    pub language_selection: LanguageSelection,
    pub languages: Languages,
    pub set_property: Vec<SetProperty>,
}

/// What the suite says of itself in Apps and Features.
#[derive(Debug)]
pub struct ArpInfo {
    pub version: String,
    pub publisher: String,
    pub display_name: String,
}

/// Which language is the default.
#[derive(Debug)]
pub struct LanguageSelection {
    pub default: String,
}

/// The languages of the suite.
#[derive(Debug)]
pub struct Languages {
    pub language: Vec<Language>,
}

/// A language of the suite, with its texts by their names. No name occurs twice.
#[derive(Debug)]
pub struct Language {
    pub lcid: String,
    pub strings: Vec<(String, String)>,
}

/// A property that the suite sets.
#[derive(Debug)]
pub struct SetProperty {
    pub name: String,
    pub value: Option<String>,
}

/// The value of the first property with a name.
pub open spec fn property(properties: Seq<SetProperty>, name: Seq<char>) -> Option<Seq<char>>
    decreases properties.len(),
{
    if properties.len() == 0 {
        None
    } else if properties[0].name@ == name {
        opt_text(properties[0].value)
    } else {
        property(properties.drop_first(), name)
    }
}

/// The first text with a name.
pub open spec fn named_text(strings: Seq<(String, String)>, name: Seq<char>) -> Option<Seq<char>>
    decreases strings.len(),
{
    if strings.len() == 0 {
        None
    } else if strings[0].0@ == name {
        Some(strings[0].1@)
    } else {
        named_text(strings.drop_first(), name)
    }
}

/// The texts of the first language with a number.
pub open spec fn language_strings(languages: Seq<Language>, lcid: Seq<char>) -> Option<
    Seq<(String, String)>,
>
    decreases languages.len(),
{
    if languages.len() == 0 {
        None
    } else if languages[0].lcid@ == lcid {
        Some(languages[0].strings@)
    } else {
        language_strings(languages.drop_first(), lcid)
    }
}

impl SetupXml {
    /// The value of a property: that of the first one with the name.
    pub fn get_property(&self, name: &str) -> (r: Option<String>)
        ensures
            opt_text(r) == property(self.set_property@, name@),
    {
        let properties = &self.set_property;
        let mut i: usize = 0;
        assert(properties@.skip(0) =~= properties@);
        while i < properties.len()
            invariant
                i <= properties.len(),
                properties@ == self.set_property@,
                property(properties@, name@) == property(properties@.skip(i as int), name@),
            decreases properties.len() - i,
        {
            assert(properties@.skip(i as int).drop_first() =~= properties@.skip(i + 1));
            if str_eq(properties[i].name.as_str(), name) {
                return copy_option(&properties[i].value);
            }
            i += 1;
        }
        None
    }

    /// The publisher: the text that the default language has for it, or else its name.
    pub open spec fn publisher_text(self) -> Seq<char> {
        let name = self.arp_info.publisher@;
        match language_strings(self.languages.language@, self.language_selection.default@) {
            Some(strings) => match named_text(strings, name) {
                Some(text) => text,
                None => name,
            },
            None => name,
        }
    }

    /// The publisher: the text that the default language has for it, or else its name.
    pub fn publisher(&self) -> (r: String)
        ensures
            r@ == self.publisher_text(),
    {
        let languages = &self.languages.language;
        let name = self.arp_info.publisher.as_str();
        let default = self.language_selection.default.as_str();
        let mut i: usize = 0;
        assert(languages@.skip(0) =~= languages@);
        while i < languages.len() && !str_eq(languages[i].lcid.as_str(), default)
            invariant
                i <= languages.len(),
                language_strings(languages@, default@) == language_strings(
                    languages@.skip(i as int),
                    default@,
                ),
            decreases languages.len() - i,
        {
            assert(languages@.skip(i as int).drop_first() =~= languages@.skip(i + 1));
            i += 1;
        }
        if i == languages.len() {
            return name.to_owned();
        }
        let strings = &languages[i].strings;
        let mut k: usize = 0;
        assert(strings@.skip(0) =~= strings@);
        while k < strings.len()
            invariant
                k <= strings.len(),
                name@ == self.arp_info.publisher@,
                language_strings(
                    self.languages.language@,
                    self.language_selection.default@,
                ) == Some(strings@),
                named_text(strings@, name@) == named_text(strings@.skip(k as int), name@),
            decreases strings.len() - k,
        {
            assert(strings@.skip(k as int).drop_first() =~= strings@.skip(k + 1));
            if str_eq(strings[k].0.as_str(), name) {
                return strings[k].1.clone();
            }
            k += 1;
        }
        name.to_owned()
    }
}

} // verus!
