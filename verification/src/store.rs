//! The single in-process owner of the live configuration document.

use vstd::prelude::*;
use crate::model::Config;
use crate::model::ConfigV;

verus! {

/// The source of truth for the live configuration.
///
/// Readers take a full snapshot of the current document; a writer replaces
/// the document wholesale, never field by field. No state between two
/// documents is representable here, so a reader sees either the old or the
/// new document in full, never a mixture of the two.
pub struct ConfigStore {
    current: Config,
}

impl View for ConfigStore {
    type V = ConfigV;

    closed spec fn view(&self) -> ConfigV {
        self.current@
    }
}

impl ConfigStore {
    /// Build the store around the document loaded at boot.
    pub fn new(initial: Config) -> (r: ConfigStore)
        ensures
            r@ == initial@,
    {
        ConfigStore { current: initial }
    }

    /// A consistent, immutable snapshot of the whole current document.
    pub fn read(&self) -> (r: Config)
        ensures
            r@ == self@,
    {
        self.current.duplicate()
    }

    /// Install a new document wholesale.
    pub fn replace(&mut self, new_doc: Config)
        ensures
            final(self)@ == new_doc@,
    {
        self.current = new_doc;
    }
}

} // verus!
