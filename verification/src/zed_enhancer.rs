//! From what the ZFS event daemon reports to a command for the scanner.
//!
//! Some events name a pool or a dataset whose details have to be looked up
//! on the host. The lookup is the caller's: this module says what is to be
//! looked up for an event, and makes the command out of the event and what
//! was found.

use crate::error::Error;
use crate::pool::{Dataset, DatasetView, Pool, PoolView};
use crate::zed::zpool::guid_value;
use crate::zed::{PoolCommand, PoolCommandView, ZedCommand};
use vstd::prelude::*;

verus! {

/// What has to be looked up on the host before an event can be passed on.
#[derive(Debug, PartialEq)]
pub enum Lookup {
    /// Nothing: the event says all there is to say.
    Nothing,
    /// All the pools that are imported.
    ImportedPools,
    /// The pool with the name and the GUID.
    Pool(String, u64),
    /// The dataset with the name.
    Dataset(String),
}

/// The mathematical value of a [`Lookup`].
pub ghost enum LookupView {
    Nothing,
    ImportedPools,
    Pool(Seq<char>, u64),
    Dataset(Seq<char>),
}

impl View for Lookup {
    type V = LookupView;

    open spec fn view(&self) -> LookupView {
        match self {
            Lookup::Nothing => LookupView::Nothing,
            Lookup::ImportedPools => LookupView::ImportedPools,
            Lookup::Pool(n, g) => LookupView::Pool(n@, *g),
            Lookup::Dataset(n) => LookupView::Dataset(n@),
        }
    }
}

/// What a lookup found.
#[derive(Debug, PartialEq)]
pub enum Found {
    Nothing,
    Pools(Vec<Pool>),
    Pool(Pool),
    Dataset(Dataset),
}

/// The mathematical value of [`Found`].
pub ghost enum FoundView {
    Nothing,
    Pools(Seq<PoolView>),
    Pool(PoolView),
    Dataset(DatasetView),
}

impl View for Found {
    type V = FoundView;

    open spec fn view(&self) -> FoundView {
        match self {
            Found::Nothing => FoundView::Nothing,
            Found::Pools(ps) => FoundView::Pools(ps.deep_view()),
            Found::Pool(p) => FoundView::Pool(p@),
            Found::Dataset(d) => FoundView::Dataset(d@),
        }
    }
}

/// The mathematical value of a [`ZedCommand`].
pub ghost enum ZedCommandView {
    Init,
    CreateZpool(Seq<char>, Seq<char>, Seq<char>),
    ImportZpool(Seq<char>, Seq<char>, Seq<char>),
    ExportZpool(Seq<char>, Seq<char>),
    DestroyZpool(Seq<char>),
    CreateZfs(Seq<char>, Seq<char>),
    DestroyZfs(Seq<char>, Seq<char>),
    SetZpoolProp(Seq<char>, Seq<char>, Seq<char>),
    SetZfsProp(Seq<char>, Seq<char>, Seq<char>, Seq<char>),
    AddVdev(Seq<char>, Seq<char>),
}

impl View for ZedCommand {
    type V = ZedCommandView;

    open spec fn view(&self) -> ZedCommandView {
        match self {
            ZedCommand::Init => ZedCommandView::Init,
            ZedCommand::CreateZpool(n, g, s) => ZedCommandView::CreateZpool(n@, g@, s@),
            ZedCommand::ImportZpool(n, g, s) => ZedCommandView::ImportZpool(n@, g@, s@),
            ZedCommand::ExportZpool(g, s) => ZedCommandView::ExportZpool(g@, s@),
            ZedCommand::DestroyZpool(g) => ZedCommandView::DestroyZpool(g@),
            ZedCommand::CreateZfs(g, n) => ZedCommandView::CreateZfs(g@, n@),
            ZedCommand::DestroyZfs(g, n) => ZedCommandView::DestroyZfs(g@, n@),
            ZedCommand::SetZpoolProp(g, k, v) => ZedCommandView::SetZpoolProp(g@, k@, v@),
            ZedCommand::SetZfsProp(g, n, k, v) => ZedCommandView::SetZfsProp(g@, n@, k@, v@),
            ZedCommand::AddVdev(n, g) => ZedCommandView::AddVdev(n@, g@),
        }
    }
}

/// The pool that an event names, by name and GUID, or `ParseInt` where the
/// GUID is malformed.
pub open spec fn named(name: Seq<char>, guid: Seq<char>) -> Result<LookupView, Error> {
    match guid_value(guid) {
        Some(g) => Ok(LookupView::Pool(name, g)),
        None => Err(Error::ParseInt),
    }
}

/// What has to be looked up for an event: all pools when the daemon starts,
/// the pool when one is created or imported or gets a new device, the
/// dataset when one is created, and nothing otherwise.
pub open spec fn lookup_of(cmd: ZedCommandView) -> Result<LookupView, Error> {
    match cmd {
        ZedCommandView::Init => Ok(LookupView::ImportedPools),
        ZedCommandView::CreateZpool(name, guid, _) => named(name, guid),
        ZedCommandView::ImportZpool(name, guid, _) => named(name, guid),
        ZedCommandView::AddVdev(name, guid) => named(name, guid),
        ZedCommandView::CreateZfs(_, name) => Ok(LookupView::Dataset(name)),
        _ => Ok(LookupView::Nothing),
    }
}

/// What has to be looked up for an event.
pub fn lookup_for(cmd: &ZedCommand) -> (r: Result<Lookup, Error>)
    ensures
        match lookup_of(cmd@) {
            Ok(l) => r is Ok && r->Ok_0@ == l,
            Err(e) => r is Err && r->Err_0 == e,
        },
{
    match cmd {
        ZedCommand::Init => Ok(Lookup::ImportedPools),
        ZedCommand::CreateZpool(name, guid, _) => {
            let g = guid.to_u64()?;
            Ok(Lookup::Pool(name.0.clone(), g))
        },
        ZedCommand::ImportZpool(name, guid, _) => {
            let g = guid.to_u64()?;
            Ok(Lookup::Pool(name.0.clone(), g))
        },
        ZedCommand::AddVdev(name, guid) => {
            let g = guid.to_u64()?;
            Ok(Lookup::Pool(name.0.clone(), g))
        },
        ZedCommand::CreateZfs(_, name) => Ok(Lookup::Dataset(name.0.clone())),
        _ => Ok(Lookup::Nothing),
    }
}

/// The command that an event gives, with what was found for it on the
/// host.
///
/// A new pool is added, an imported pool or one with a new device is
/// updated, an exported or destroyed pool is removed; a new dataset is
/// added, a destroyed one removed; property changes are passed on. An event
/// that names a pool with a malformed GUID fails with `ParseInt`. Where
/// what was found is not what the event needs, the event fails with
/// `PoolNotFound`, or with `ZfsNotFound` for a dataset.
pub open spec fn pool_command(cmd: ZedCommandView, found: FoundView) -> Result<
    PoolCommandView,
    Error,
> {
    match cmd {
        ZedCommandView::Init => match found {
            FoundView::Pools(ps) => Ok(PoolCommandView::AddPools(ps)),
            _ => Err(Error::PoolNotFound),
        },
        ZedCommandView::CreateZpool(name, guid, _) => match (guid_value(guid), found) {
            (None, _) => Err(Error::ParseInt),
            (Some(_), FoundView::Pool(p)) => Ok(PoolCommandView::AddPool(p)),
            _ => Err(Error::PoolNotFound),
        },
        ZedCommandView::ImportZpool(name, guid, _) => match (guid_value(guid), found) {
            (None, _) => Err(Error::ParseInt),
            (Some(_), FoundView::Pool(p)) => Ok(PoolCommandView::UpdatePool(p)),
            _ => Err(Error::PoolNotFound),
        },
        ZedCommandView::AddVdev(name, guid) => match (guid_value(guid), found) {
            (None, _) => Err(Error::ParseInt),
            (Some(_), FoundView::Pool(p)) => Ok(PoolCommandView::UpdatePool(p)),
            _ => Err(Error::PoolNotFound),
        },
        ZedCommandView::ExportZpool(guid, _) => Ok(PoolCommandView::RemovePool(guid)),
        ZedCommandView::DestroyZpool(guid) => Ok(PoolCommandView::RemovePool(guid)),
        ZedCommandView::CreateZfs(guid, _) => match found {
            FoundView::Dataset(d) => Ok(PoolCommandView::AddDataset(guid, d)),
            _ => Err(Error::ZfsNotFound),
        },
        ZedCommandView::DestroyZfs(guid, name) => Ok(PoolCommandView::RemoveDataset(guid, name)),
        ZedCommandView::SetZpoolProp(guid, key, value) => Ok(
            PoolCommandView::SetZpoolProp(guid, key, value),
        ),
        ZedCommandView::SetZfsProp(guid, name, key, value) => Ok(
            PoolCommandView::SetZfsProp(guid, name, key, value),
        ),
    }
}

/// Takes a ZedCommand and produces some PoolCommands.
pub fn handle_zed_commands(cmd: ZedCommand, found: Found) -> (r: Result<PoolCommand, Error>)
    ensures
        match pool_command(cmd@, found@) {
            Ok(c) => r is Ok && r->Ok_0@ == c,
            Err(e) => r is Err && r->Err_0 == e,
        },
{
    match cmd {
        ZedCommand::Init => match found {
            Found::Pools(ps) => Ok(PoolCommand::AddPools(ps)),
            _ => Err(Error::PoolNotFound),
        },
        ZedCommand::CreateZpool(_, guid, _) => {
            let _ = guid.to_u64()?;
            match found {
                Found::Pool(p) => Ok(PoolCommand::AddPool(p)),
                _ => Err(Error::PoolNotFound),
            }
        },
        ZedCommand::ImportZpool(_, guid, _) => {
            let _ = guid.to_u64()?;
            match found {
                Found::Pool(p) => Ok(PoolCommand::UpdatePool(p)),
                _ => Err(Error::PoolNotFound),
            }
        },
        ZedCommand::AddVdev(_, guid) => {
            let _ = guid.to_u64()?;
            match found {
                Found::Pool(p) => Ok(PoolCommand::UpdatePool(p)),
                _ => Err(Error::PoolNotFound),
            }
        },
        ZedCommand::ExportZpool(guid, _) => Ok(PoolCommand::RemovePool(guid)),
        ZedCommand::DestroyZpool(guid) => Ok(PoolCommand::RemovePool(guid)),
        ZedCommand::CreateZfs(guid, _) => match found {
            Found::Dataset(d) => Ok(PoolCommand::AddDataset(guid, d)),
            _ => Err(Error::ZfsNotFound),
        },
        ZedCommand::DestroyZfs(guid, name) => Ok(PoolCommand::RemoveDataset(guid, name)),
        ZedCommand::SetZpoolProp(guid, key, value) => Ok(
            PoolCommand::SetZpoolProp(guid, key, value),
        ),
        ZedCommand::SetZfsProp(guid, name, key, value) => Ok(
            PoolCommand::SetZfsProp(guid, name, key, value),
        ),
    }
}

} // verus!
