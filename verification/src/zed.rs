//! Commands about ZFS pools: what the event daemon reports, and what the
//! scanner's state is asked to do in response.

use crate::pool::{Dataset, DatasetView, Pool, PoolView};
use vstd::prelude::*;

pub mod prop;
pub mod zfs;
pub mod zpool;

verus! {

/// A change to the pools a host knows about.
#[derive(Debug, PartialEq)]
pub enum PoolCommand {
    AddPools(Vec<Pool>),
    AddPool(Pool),
    UpdatePool(Pool),
    RemovePool(zpool::Guid),
    AddDataset(zpool::Guid, Dataset),
    RemoveDataset(zpool::Guid, zfs::Name),
    SetZpoolProp(zpool::Guid, prop::Key, prop::Value),
    SetZfsProp(zpool::Guid, zfs::Name, prop::Key, prop::Value),
}

/// The mathematical value of a [`PoolCommand`].
pub ghost enum PoolCommandView {
    AddPools(Seq<PoolView>),
    AddPool(PoolView),
    UpdatePool(PoolView),
    RemovePool(Seq<char>),
    AddDataset(Seq<char>, DatasetView),
    RemoveDataset(Seq<char>, Seq<char>),
    SetZpoolProp(Seq<char>, Seq<char>, Seq<char>),
    SetZfsProp(Seq<char>, Seq<char>, Seq<char>, Seq<char>),
}

impl View for PoolCommand {
    type V = PoolCommandView;

    open spec fn view(&self) -> PoolCommandView {
        match self {
            PoolCommand::AddPools(xs) => PoolCommandView::AddPools(xs.deep_view()),
            PoolCommand::AddPool(p) => PoolCommandView::AddPool(p@),
            PoolCommand::UpdatePool(p) => PoolCommandView::UpdatePool(p@),
            PoolCommand::RemovePool(g) => PoolCommandView::RemovePool(g@),
            PoolCommand::AddDataset(g, d) => PoolCommandView::AddDataset(g@, d@),
            PoolCommand::RemoveDataset(g, n) => PoolCommandView::RemoveDataset(g@, n@),
            PoolCommand::SetZpoolProp(g, k, v) => PoolCommandView::SetZpoolProp(g@, k@, v@),
            PoolCommand::SetZfsProp(g, n, k, v) => PoolCommandView::SetZfsProp(g@, n@, k@, v@),
        }
    }
}

/// What the ZFS event daemon reports.
#[derive(Debug, PartialEq)]
pub enum ZedCommand {
    Init,
    CreateZpool(zpool::Name, zpool::Guid, zpool::State),
    ImportZpool(zpool::Name, zpool::Guid, zpool::State),
    ExportZpool(zpool::Guid, zpool::State),
    DestroyZpool(zpool::Guid),
    CreateZfs(zpool::Guid, zfs::Name),
    DestroyZfs(zpool::Guid, zfs::Name),
    SetZpoolProp(zpool::Guid, prop::Key, prop::Value),
    SetZfsProp(zpool::Guid, zfs::Name, prop::Key, prop::Value),
    AddVdev(zpool::Name, zpool::Guid),
}

} // verus!
