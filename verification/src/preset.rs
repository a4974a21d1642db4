//! Factory presets that a plugin supplies itself.
use vstd::prelude::*;

verus! {

/// Host-visible factory preset metadata.
///
/// `number` is the stable identifier that a host sees; a plugin without a
/// numbering of its own uses the preset's zero-based index.
#[derive(Clone, Debug, Eq, PartialEq)]
pub struct FactoryPresetInfo {
    pub number: i32,
    pub name: &'static str,
}

impl FactoryPresetInfo {
    #[must_use]
    pub fn new(number: i32, name: &'static str) -> (r: Self)
        ensures
            r.number == number,
            r.name == name,
    {
        FactoryPresetInfo { number, name }
    }
}

} // verus!
