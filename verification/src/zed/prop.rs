//! A property assignment as events carry it.

use vstd::prelude::*;

verus! {

/// The name of a property.
#[derive(Debug, PartialEq)]
pub struct Key(pub String);

/// The value of a property.
#[derive(Debug, PartialEq)]
pub struct Value(pub String);

impl View for Key {
    type V = Seq<char>;

    open spec fn view(&self) -> Seq<char> {
        self.0@
    }
}

impl View for Value {
    type V = Seq<char>;

    open spec fn view(&self) -> Seq<char> {
        self.0@
    }
}

} // verus!
