//! The list of dictionaries that a Plover configuration names, and the
//! paths that it leads to.

use vstd::prelude::*;
use crate::error::LoadError;

verus! {

/// One dictionary of the configuration: its path, which may begin with `~`
/// for the home directory, and whether it is in use.
#[derive(Debug, PartialEq, Eq)]
pub struct DictionaryConfig {
    pub enabled: bool,
    pub path: String,
}

/// `ini::Ini`, a parsed configuration: sections, each with its properties.
#[verifier::external_type_specification]
#[verifier::external_body]
pub struct ExIni(ini::Ini);

/// What a parsed configuration holds in its named sections: for the name of
/// a section and the name of a property, the value that `Ini::get_from`
/// finds, which is the first value of that property in the first section of
/// that name.
pub uninterp spec fn ini_values(document: ini::Ini) -> Map<(Seq<char>, Seq<char>), Seq<char>>;

/// What `Ini::load_from_str` makes of a text: the values of the
/// configuration that the text spells, or nothing where it spells none.
pub uninterp spec fn ini_document(text: Seq<char>) -> Option<Map<(Seq<char>, Seq<char>), Seq<char>>>;

/// Calls `Ini::load_from_str`. The contract claims no more than that the
/// outcome depends on the text alone: the values of the configuration are
/// `ini_document` of the text, and there is an error where that is nothing.
#[verifier::external_body]
fn parse_ini(text: &str) -> (outcome: Result<ini::Ini, ini::ParseError>)
    ensures
        match outcome {
            Ok(document) => ini_document(text@) == Some(ini_values(document)),
            Err(_) => ini_document(text@) is None,
        },
{
    ini::Ini::load_from_str(text)
}

/// Calls `Ini::get_from` for a named section, and copies what it finds. The
/// contract says that this is the value that the configuration holds for
/// the section and the name, and nothing where it holds none.
#[verifier::external_body]
fn value_in(document: &ini::Ini, section: &str, name: &str) -> (value: Option<String>)
    ensures
        match value {
            Some(found) => ini_values(*document).dom().contains((section@, name@))
                && ini_values(*document)[(section@, name@)] == found@,
            None => !ini_values(*document).dom().contains((section@, name@)),
        },
{
    document.get_from(Some(section), name).map(|found| found.to_owned())
}

/// The dictionary list of a parsed configuration, as it stands there: the
/// value named `dictionaries` in the given section, which is a JSON text.
pub fn dictionaries_entry(
    document: &ini::Ini,
    section_name: &str,
) -> (outcome: Result<String, LoadError>)
    ensures
        match outcome {
            Ok(json) => ini_values(*document).dom().contains(
                (section_name@, "dictionaries"@),
            ) && ini_values(*document)[(section_name@, "dictionaries"@)] == json@,
            Err(error) => error is SectionMissing && !ini_values(*document).dom().contains(
                (section_name@, "dictionaries"@),
            ),
        },
{
    match value_in(document, section_name, "dictionaries") {
        Some(json) => Ok(json),
        None => Err(LoadError::SectionMissing),
    }
}

/// The dictionary list of a configuration, given as the text of the
/// configuration file: the value named `dictionaries` in the given section,
/// which is a JSON text. It is an error if the text is no configuration,
/// and another if the section or the value is not there.
pub fn dictionaries_json(config: &str, section_name: &str) -> (outcome: Result<String, LoadError>)
    ensures
        match ini_document(config@) {
            None => outcome matches Err(error) && error is Ini,
            Some(values) => if values.dom().contains((section_name@, "dictionaries"@)) {
                outcome matches Ok(json) && json@ == values[(section_name@, "dictionaries"@)]
            } else {
                outcome matches Err(error) && error is SectionMissing
            },
        },
{
    match parse_ini(config) {
        Ok(document) => dictionaries_entry(&document, section_name),
        Err(error) => Err(LoadError::from(error)),
    }
}

/// The path of the configuration: the one that was given or, where none
/// was, the default one. It is an error if there is neither.
pub fn plover_config_path(
    given: Option<String>,
    default: Option<String>,
) -> (outcome: Result<String, LoadError>)
    ensures
        match (given, default) {
            (Some(path), _) => outcome == Ok::<String, LoadError>(path),
            (None, Some(path)) => outcome == Ok::<String, LoadError>(path),
            (None, None) => outcome == Err::<String, LoadError>(LoadError::HomeNotFound),
        },
{
    match given {
        Some(path) => Ok(path),
        None => match default {
            Some(path) => Ok(path),
            None => Err(LoadError::HomeNotFound),
        },
    }
}

} // verus!
