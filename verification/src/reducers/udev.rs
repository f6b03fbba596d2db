//! Block device events.

use crate::state::{uevent_map, uevents_update, uevents_wf, uevents_without, UEvents};
use crate::udev::{UdevCommand, UdevCommandView};
use crate::uevent::UEventView;
use vstd::prelude::*;

verus! {

/// The events known after a command: `Add` and `Change` file the event under
/// its `devpath`, in place of any earlier one; `Remove` forgets the device.
pub open spec fn next_uevents(m: Map<Seq<char>, UEventView>, cmd: UdevCommandView) -> Map<
    Seq<char>,
    UEventView,
> {
    match cmd {
        UdevCommandView::Add(x) => m.insert(x.devpath, x),
        UdevCommandView::Change(x) => m.insert(x.devpath, x),
        UdevCommandView::Remove(x) => m.remove(x.devpath),
    }
}

/// Updates the udev portion of the state in response to a command.
pub fn update_udev(uevents: &UEvents, cmd: UdevCommand) -> (r: UEvents)
    ensures
        uevent_map(r) == next_uevents(uevent_map(*uevents), cmd@),
        uevents_wf(uevent_map(*uevents)) ==> uevents_wf(uevent_map(r)),
{
    match cmd {
        UdevCommand::Add(x) => {
            let k = x.devpath.clone();
            uevents_update(uevents, k, x)
        },
        UdevCommand::Change(x) => {
            let k = x.devpath.clone();
            uevents_update(uevents, k, x)
        },
        UdevCommand::Remove(x) => uevents_without(uevents, &x.devpath),
    }
}

} // verus!
