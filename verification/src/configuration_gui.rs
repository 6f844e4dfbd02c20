//! State of the configuration editor: the selected shape and its editable
//! fields.  The window, the folder picker and the configuration files
//! live in the surrounding program; it hands a loaded record (or its
//! absence) to `reload_configuration` whenever the selected shape
//! changes.

use vstd::prelude::*;
use crate::configuration::Configuration;
use crate::shape::Shape;

verus! {

/// The configuration editor's state: selected shape, source path and
/// extension filter being edited.
pub struct ConfigurationGui {
    pub shape: Shape,
    pub path: String,
    pub extension_filter: String,
}

impl ConfigurationGui {
    /// Fill the editable fields from the selected shape's loaded
    /// configuration record; when no record exists the fields are
    /// cleared.  The selected shape is kept.
    pub fn reload_configuration(&mut self, config: Option<Configuration>)
        ensures
            final(self).shape == old(self).shape,
            match config {
                Some(c) => final(self).path@ == c.source_path@ && final(self).extension_filter@
                    == (match c.extension_filter {
                    Some(e) => e@,
                    None => Seq::<char>::empty(),
                }),
                None => final(self).path@ == Seq::<char>::empty()
                    && final(self).extension_filter@ == Seq::<char>::empty(),
            },
    {
        match config {
            Some(c) => {
                self.path = c.source_path;
                self.extension_filter = match c.extension_filter {
                    Some(e) => e,
                    None => String::new(),
                };
            }
            None => {
                self.path = String::new();
                self.extension_filter = String::new();
            }
        }
    }
}

} // verus!
