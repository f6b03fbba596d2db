//! Names for the attributes of a dataset as events carry them.

use vstd::prelude::*;

verus! {

/// The name of a dataset.
#[derive(Debug, PartialEq)]
pub struct Name(pub String);

impl View for Name {
    type V = Seq<char>;

    open spec fn view(&self) -> Seq<char> {
        self.0@
    }
}

} // verus!
