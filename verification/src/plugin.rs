//! The plugin: an embedded namespace on its way to the host that will read
//! its assets from it.

use crate::asset_io::{files_view, EmbeddedAssetIo};
use crate::tables::{asset_table_of, directory_table_of};
use vstd::prelude::*;

verus! {

/// An embedded namespace, ready to be given to a host as the place from
/// which it loads its assets.
pub struct EmbeddedAssetsPlugin(EmbeddedAssetIo);

impl EmbeddedAssetsPlugin {
    /// The namespace that the plugin holds.
    pub closed spec fn provider(&self) -> EmbeddedAssetIo {
        self.0
    }

    /// The plugin for the namespace that holds `assets`, built as
    /// `EmbeddedAssetIo::new` builds it.
    pub fn new(assets: Vec<(String, Vec<u8>)>) -> (plugin: Self)
        ensures
            plugin.provider().asset_table() == asset_table_of(files_view(assets@)),
            plugin.provider().directory_table() == directory_table_of(files_view(assets@)),
            plugin.provider().wf(),
    {
        EmbeddedAssetsPlugin(EmbeddedAssetIo::new(assets))
    }

    /// The namespace, to be read in place.
    pub fn io(&self) -> (io: &EmbeddedAssetIo)
        ensures
            *io == self.provider(),
    {
        &self.0
    }

    /// The namespace, to be handed over to the host.
    pub fn into_io(self) -> (io: EmbeddedAssetIo)
        ensures
            io == self.provider(),
    {
        self.0
    }

    /// The name under which the plugin registers with the host.
    pub fn name(&self) -> (name: &'static str)
        ensures
            name@ == "EmbeddedAssetsPlugin"@,
    {
        "EmbeddedAssetsPlugin"
    }
}

impl Default for EmbeddedAssetsPlugin {
    /// The plugin for the namespace that holds nothing.
    fn default() -> (plugin: Self)
        ensures
            plugin.provider().asset_table() == Map::<Seq<char>, Seq<u8>>::empty(),
            plugin.provider().directory_table() == Map::<Seq<char>, Seq<Seq<char>>>::empty(),
            plugin.provider().wf(),
    {
        EmbeddedAssetsPlugin(EmbeddedAssetIo::default())
    }
}

} // verus!
