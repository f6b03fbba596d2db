//! Commands about block devices, as udev reports them.

use crate::uevent::{UEvent, UEventView};
use vstd::prelude::*;

verus! {

/// A change to one block device. `Add` and `Change` carry the full state of
/// the device after the change.
#[derive(Debug, PartialEq)]
pub enum UdevCommand {
    Add(UEvent),
    Change(UEvent),
    Remove(UEvent),
}

/// The mathematical value of a [`UdevCommand`].
pub ghost enum UdevCommandView {
    Add(UEventView),
    Change(UEventView),
    Remove(UEventView),
}

impl View for UdevCommand {
    type V = UdevCommandView;

    open spec fn view(&self) -> UdevCommandView {
        match self {
            UdevCommand::Add(x) => UdevCommandView::Add(x@),
            UdevCommand::Change(x) => UdevCommandView::Change(x@),
            UdevCommand::Remove(x) => UdevCommandView::Remove(x@),
        }
    }
}

} // verus!
