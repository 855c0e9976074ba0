//! The forms in which an answer can be put out.

use vstd::prelude::*;
use crate::text::same;

verus! {

/// A form of output.
#[derive(Clone, Copy, Debug, PartialEq, Eq, Structural)]
pub enum OutputFormat {
    Text,
    Json,
    Alfred,
}

/// The form that goes by this name, if there is one.
pub open spec fn format_named(name: Seq<char>) -> Option<OutputFormat> {
    if name == "text"@ {
        Some(OutputFormat::Text)
    } else if name == "json"@ {
        Some(OutputFormat::Json)
    } else if name == "alfred"@ {
        Some(OutputFormat::Alfred)
    } else {
        None
    }
}

impl OutputFormat {
    /// The form that goes by this name, which must be the name of a form:
    /// `text`, `json` or `alfred`.
    pub fn from(name: &str) -> (format: OutputFormat)
        requires
            format_named(name@) is Some,
        ensures
            format_named(name@) == Some(format),
    {
        if same(name, "text") {
            OutputFormat::Text
        } else if same(name, "json") {
            OutputFormat::Json
        } else {
            OutputFormat::Alfred
        }
    }

    /// The form that goes by this name, if the name is the name of a form,
    /// and none for any other name.
    pub fn from_name(name: &str) -> (format: Option<OutputFormat>)
        ensures
            format == format_named(name@),
    {
        if same(name, "text") || same(name, "json") || same(name, "alfred") {
            Some(OutputFormat::from(name))
        } else {
            None
        }
    }
}

} // verus!
