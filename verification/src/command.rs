//! The commands a client can send to the scanner as the first line of a
//! connection.

use crate::mount::MountCommand;
use crate::udev::UdevCommand;
use crate::zed::PoolCommand;
use vstd::prelude::*;

verus! {

#[derive(Debug, PartialEq)]
pub enum Command {
    /// Subscribe to the device tree: the current one, then each new one.
    Stream,
    /// Ask for the current set of mounts, once.
    GetMounts,
    PoolCommand(PoolCommand),
    UdevCommand(UdevCommand),
    MountCommand(MountCommand),
}

} // verus!
