//! Mount table events.

use crate::mount::{Mount, MountCommand, MountCommandView, MountView};
use crate::state::{mount_set, mounts_remove, mounts_update, mounts_without, Mounts};
use vstd::prelude::*;

verus! {

/// The mounts known after a command. A replaced or moved mount gives way to
/// its successor in one step.
pub open spec fn next_mounts(s: Set<MountView>, cmd: MountCommandView) -> Set<MountView> {
    match cmd {
        MountCommandView::AddMount(m) => s.insert(m),
        MountCommandView::RemoveMount(m) => s.remove(m),
        MountCommandView::ReplaceMount { new, old } => s.remove(old).insert(new),
        MountCommandView::MoveMount { new, old } => s.remove(old).insert(new),
    }
}

/// Updates the mount portion of the state in response to a command.
pub fn update_mount(local_mounts: Mounts, cmd: MountCommand) -> (r: Mounts)
    ensures
        mount_set(r) == next_mounts(mount_set(local_mounts), cmd@),
{
    let mut local_mounts = local_mounts;
    match cmd {
        MountCommand::AddMount(target, source, fstype, opts) => {
            mounts_update(&local_mounts, Mount::new(target, source, fstype, opts))
        },
        MountCommand::RemoveMount(target, source, fstype, opts) => {
            mounts_without(&local_mounts, &Mount::new(target, source, fstype, opts))
        },
        MountCommand::ReplaceMount(target, source, fstype, opts, old_opts) => {
            mounts_remove(
                &mut local_mounts,
                &Mount::new(target.clone(), source.clone(), fstype.clone(), old_opts),
            );
            mounts_update(&local_mounts, Mount::new(target, source, fstype, opts))
        },
        MountCommand::MoveMount(target, source, fstype, opts, old_target) => {
            mounts_remove(
                &mut local_mounts,
                &Mount::new(old_target, source.clone(), fstype.clone(), opts.clone()),
            );
            mounts_update(&local_mounts, Mount::new(target, source, fstype, opts))
        },
    }
}

} // verus!
