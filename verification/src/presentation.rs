//! Optional human-oriented data attached to semantic entities.
use vstd::prelude::*;

verus! {

/// Optional human-oriented data associated with a Module, Domain Type,
/// Function, or Parameter. These values never determine identity.
#[derive(Clone, Debug, PartialEq, Eq)]
pub struct PresentationMetadata {
    pub preferred_name: Option<String>,
    pub documentation: Option<String>,
}

/// The text of an optional string, by its characters.
pub open spec fn text_of(value: Option<String>) -> Option<Seq<char>> {
    match value {
        Some(text) => Some(text@),
        None => None,
    }
}

/// The text of an optional string slice, by its characters.
pub open spec fn str_text_of(value: Option<&str>) -> Option<Seq<char>> {
    match value {
        Some(text) => Some(text@),
        None => None,
    }
}

pub(crate) fn borrow_text(value: &Option<String>) -> (r: Option<&str>)
    ensures
        str_text_of(r) == text_of(*value),
{
    match value {
        Some(text) => Some(text.as_str()),
        None => None,
    }
}

pub(crate) fn copy_text(value: &Option<String>) -> (r: Option<String>)
    ensures
        r == *value,
{
    match value {
        Some(text) => Some(text.clone()),
        None => None,
    }
}

impl PresentationMetadata {
    pub open spec fn spec_preferred_name(&self) -> Option<Seq<char>> {
        text_of(self.preferred_name)
    }

    pub open spec fn spec_documentation(&self) -> Option<Seq<char>> {
        text_of(self.documentation)
    }

    /// Presentation metadata with neither a preferred name nor documentation.
    pub fn empty() -> (r: Self)
        ensures
            r.spec_preferred_name() is None,
            r.spec_documentation() is None,
    {
        PresentationMetadata { preferred_name: None, documentation: None }
    }

    pub(crate) fn from_parts(preferred_name: Option<String>, documentation: Option<String>) -> (r:
        Self)
        ensures
            r.preferred_name == preferred_name,
            r.documentation == documentation,
    {
        PresentationMetadata { preferred_name, documentation }
    }

    /// Returns the optional preferred name.
    pub fn preferred_name(&self) -> (r: Option<&str>)
        ensures
            str_text_of(r) == self.spec_preferred_name(),
    {
        borrow_text(&self.preferred_name)
    }

    /// Returns the optional documentation.
    pub fn documentation(&self) -> (r: Option<&str>)
        ensures
            str_text_of(r) == self.spec_documentation(),
    {
        borrow_text(&self.documentation)
    }

    pub(crate) fn copied(&self) -> (r: Self)
        ensures
            r == *self,
    {
        PresentationMetadata {
            preferred_name: copy_text(&self.preferred_name),
            documentation: copy_text(&self.documentation),
        }
    }
}

impl Default for PresentationMetadata {
    fn default() -> (r: Self)
        ensures
            r.spec_preferred_name() is None,
            r.spec_documentation() is None,
    {
        PresentationMetadata::empty()
    }
}

} // verus!
