use vstd::prelude::*;

use crate::names::{distinct_names, names_of, valid_name};

verus! {

/// The two incompatible format generations of the save container.
#[derive(Clone, Copy, Debug, PartialEq, Eq, Structural)]
pub enum Generation {
    /// The legacy engine: no light-plugin table.
    LegacyEngine,
    /// The newer engine: a light-plugin table follows the plugin table.
    SpecialEdition,
}

/// The engine version from which the newer generation starts.
pub const SE_MIN_ENGINE_VERSION: u32 = 12;

/// The generation a header's engine-version field declares.
pub open spec fn generation_of(engine_version: u32) -> Generation {
    if engine_version >= SE_MIN_ENGINE_VERSION {
        Generation::SpecialEdition
    } else {
        Generation::LegacyEngine
    }
}

/// The fixed-layout prefix of a save file, after the magic signature.
#[derive(Clone, Copy, Debug, PartialEq, Eq, Structural)]
pub struct SaveHeader {
    /// Format generation, derived from the engine version.
    pub generation: Generation,
    /// The engine version recorded in the save.
    pub engine_version: u32,
    /// The format version recorded in the save.
    pub format_version: u32,
}

impl SaveHeader {
    /// The generation field agrees with the engine version.
    pub open spec fn wf(&self) -> bool {
        self.generation == generation_of(self.engine_version)
    }

    /// Whether the save comes from the newer format generation.
    pub fn is_se(&self) -> (r: bool)
        ensures
            r == (self.generation == Generation::SpecialEdition),
    {
        match self.generation {
            Generation::SpecialEdition => true,
            Generation::LegacyEngine => false,
        }
    }
}

/// The ordered plugin tables recovered from a save: load order is preserved
/// and is never re-sorted. The light table is empty for the legacy
/// generation.
#[derive(Clone, Debug, PartialEq, Eq)]
pub struct PluginManifest {
    /// Standard plugins, in load order, case-folded, without repeats.
    pub plugins: Vec<Vec<u8>>,
    /// Light plugins, in load order, case-folded, without repeats.
    pub light_plugins: Vec<Vec<u8>>,
}

impl PluginManifest {
    /// The standard plugin names.
    pub open spec fn plugin_seq(&self) -> Seq<Seq<u8>> {
        names_of(self.plugins@)
    }

    /// The light plugin names.
    pub open spec fn light_seq(&self) -> Seq<Seq<u8>> {
        names_of(self.light_plugins@)
    }

    /// Standard plugins followed by light plugins, each table in its own
    /// internal order.
    pub open spec fn all_names(&self) -> Seq<Seq<u8>> {
        self.plugin_seq() + self.light_seq()
    }
}

/// The sole artifact of decoding: header summary plus plugin manifest.
#[derive(Clone, Debug, PartialEq, Eq)]
pub struct SaveInfo {
    /// The decoded header fields.
    pub header: SaveHeader,
    /// The decoded plugin tables.
    pub plugin_info: PluginManifest,
}

/// The mathematical model of a decoded save.
pub struct SaveModel {
    /// The decoded header fields.
    pub header: SaveHeader,
    /// Standard plugin names, in load order.
    pub plugins: Seq<Seq<u8>>,
    /// Light plugin names, in load order.
    pub light_plugins: Seq<Seq<u8>>,
}

impl View for SaveInfo {
    type V = SaveModel;

    open spec fn view(&self) -> SaveModel {
        SaveModel {
            header: self.header,
            plugins: self.plugin_info.plugin_seq(),
            light_plugins: self.plugin_info.light_seq(),
        }
    }
}

/// A save model as decoding yields it: the header agrees with itself, the
/// tables hold valid folded names without repeats and fit their count
/// fields, and the legacy generation has no light table.
pub open spec fn model_wf(v: SaveModel) -> bool {
    &&& v.header.wf()
    &&& v.plugins.len() <= 0xff
    &&& (forall|i: int| 0 <= i < v.plugins.len() ==> valid_name(#[trigger] v.plugins[i]))
    &&& distinct_names(v.plugins)
    &&& v.light_plugins.len() <= 0xffff
    &&& (forall|i: int| 0 <= i < v.light_plugins.len() ==> valid_name(#[trigger] v.light_plugins[i]))
    &&& distinct_names(v.light_plugins)
    &&& (v.header.generation == Generation::LegacyEngine ==> v.light_plugins.len() == 0)
}

} // verus!
