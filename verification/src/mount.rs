//! Entries of the kernel mount table and the commands that change the set of
//! mounts a host knows about.

use vstd::prelude::*;

verus! {

/// Where a filesystem is mounted.
#[derive(Debug, PartialEq, Eq, Hash)]
pub struct MountPoint(pub String);

/// The block device (or other source) that a mount is backed by.
#[derive(Debug, PartialEq, Eq, Hash)]
pub struct BdevPath(pub String);

/// The filesystem type of a mount.
#[derive(Debug, PartialEq, Eq, Hash)]
pub struct FsType(pub String);

/// The option string of a mount.
#[derive(Debug, PartialEq, Eq, Hash)]
pub struct MountOpts(pub String);

impl View for MountPoint {
    type V = Seq<char>;

    open spec fn view(&self) -> Seq<char> {
        self.0@
    }
}

impl View for BdevPath {
    type V = Seq<char>;

    open spec fn view(&self) -> Seq<char> {
        self.0@
    }
}

impl View for FsType {
    type V = Seq<char>;

    open spec fn view(&self) -> Seq<char> {
        self.0@
    }
}

impl View for MountOpts {
    type V = Seq<char>;

    open spec fn view(&self) -> Seq<char> {
        self.0@
    }
}

impl Clone for MountPoint {
    fn clone(&self) -> (r: Self)
        ensures
            r == *self,
    {
        MountPoint(self.0.clone())
    }
}

impl Clone for BdevPath {
    fn clone(&self) -> (r: Self)
        ensures
            r == *self,
    {
        BdevPath(self.0.clone())
    }
}

impl Clone for FsType {
    fn clone(&self) -> (r: Self)
        ensures
            r == *self,
    {
        FsType(self.0.clone())
    }
}

impl Clone for MountOpts {
    fn clone(&self) -> (r: Self)
        ensures
            r == *self,
    {
        MountOpts(self.0.clone())
    }
}

/// One mount: the four strings that identify it. Two mounts are the same
/// mount exactly when all four agree.
#[derive(Debug, PartialEq, Eq, Hash)]
pub struct Mount {
    pub target: MountPoint,
    pub source: BdevPath,
    pub fs_type: FsType,
    pub opts: MountOpts,
}

/// The mathematical value of a [`Mount`].
pub ghost struct MountView {
    pub target: Seq<char>,
    pub source: Seq<char>,
    pub fs_type: Seq<char>,
    pub opts: Seq<char>,
}

impl View for Mount {
    type V = MountView;

    open spec fn view(&self) -> MountView {
        MountView {
            target: self.target@,
            source: self.source@,
            fs_type: self.fs_type@,
            opts: self.opts@,
        }
    }
}

impl DeepView for Mount {
    type V = MountView;

    open spec fn deep_view(&self) -> MountView {
        self@
    }
}

impl Clone for Mount {
    fn clone(&self) -> (r: Self)
        ensures
            r == *self,
    {
        Mount {
            target: self.target.clone(),
            source: self.source.clone(),
            fs_type: self.fs_type.clone(),
            opts: self.opts.clone(),
        }
    }
}

impl Mount {
    pub fn new(target: MountPoint, source: BdevPath, fs_type: FsType, opts: MountOpts) -> (m: Self)
        ensures
            m.target == target,
            m.source == source,
            m.fs_type == fs_type,
            m.opts == opts,
    {
        Mount { target, source, fs_type, opts }
    }

    /// Whether two mounts are the same mount.
    pub fn same(&self, other: &Mount) -> (r: bool)
        ensures
            r == (self@ == other@),
    {
        self.target.0 == other.target.0 && self.source.0 == other.source.0 && self.fs_type.0
            == other.fs_type.0 && self.opts.0 == other.opts.0
    }
}

/// A change to the set of mounts.
#[derive(Debug, PartialEq)]
pub enum MountCommand {
    /// `(target, source, fs_type, opts)` appeared.
    AddMount(MountPoint, BdevPath, FsType, MountOpts),
    /// `(target, source, fs_type, opts)` went away.
    RemoveMount(MountPoint, BdevPath, FsType, MountOpts),
    /// `(target, source, fs_type, new opts, old opts)`: the options changed.
    ReplaceMount(MountPoint, BdevPath, FsType, MountOpts, MountOpts),
    /// `(new target, source, fs_type, opts, old target)`: the mount moved.
    MoveMount(MountPoint, BdevPath, FsType, MountOpts, MountPoint),
}

/// The mathematical value of a [`MountCommand`].
pub ghost enum MountCommandView {
    AddMount(MountView),
    RemoveMount(MountView),
    ReplaceMount { new: MountView, old: MountView },
    MoveMount { new: MountView, old: MountView },
}

impl View for MountCommand {
    type V = MountCommandView;

    open spec fn view(&self) -> MountCommandView {
        match self {
            MountCommand::AddMount(t, s, f, o) => MountCommandView::AddMount(
                MountView { target: t@, source: s@, fs_type: f@, opts: o@ },
            ),
            MountCommand::RemoveMount(t, s, f, o) => MountCommandView::RemoveMount(
                MountView { target: t@, source: s@, fs_type: f@, opts: o@ },
            ),
            MountCommand::ReplaceMount(t, s, f, o, old) => MountCommandView::ReplaceMount {
                new: MountView { target: t@, source: s@, fs_type: f@, opts: o@ },
                old: MountView { target: t@, source: s@, fs_type: f@, opts: old@ },
            },
            MountCommand::MoveMount(t, s, f, o, old) => MountCommandView::MoveMount {
                new: MountView { target: t@, source: s@, fs_type: f@, opts: o@ },
                old: MountView { target: old@, source: s@, fs_type: f@, opts: o@ },
            },
        }
    }
}

} // verus!
