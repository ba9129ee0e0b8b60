use vstd::prelude::*;

use crate::error::DecodeError;
use crate::installed::InstalledSet;
use crate::inventory::ModInventory;
use crate::names::printable_name;
use crate::save::{model_wf, Generation, SaveInfo};

verus! {

/// The characters of a printable name, one per byte.
pub open spec fn ascii_str_of(s: Seq<u8>) -> Seq<char> {
    s.map(|_i: int, b: u8| b as char)
}

/// Relies on std's `String::from_utf8`: printable names are ASCII, hence
/// valid UTF-8, and convert to the string with one identical character per
/// byte.
#[verifier::external_body]
fn bytes_to_string(v: Vec<u8>) -> (r: String)
    ensures
        printable_name(v@) ==> r@ == ascii_str_of(v@),
{
    match String::from_utf8(v) {
        Ok(s) => s,
        Err(_) => String::new(),
    }
}

/// What kind of row a display value stands for.
#[derive(Clone, Copy, Debug, PartialEq, Eq, Structural)]
pub enum UIValueType {
    /// A plugin filename from the decoded manifest.
    Plugin,
}

/// One read-only display row handed to the presentation layer.
#[derive(Clone, Debug, PartialEq, Eq)]
pub struct SkUIValue {
    /// The row's label.
    pub name: String,
    /// The row's value text.
    pub value: String,
    /// What the row stands for.
    pub value_type: UIValueType,
}

impl SkUIValue {
    /// A display row from its label, value text, and kind.
    pub fn new(name: &str, value: String, value_type: UIValueType) -> (r: SkUIValue)
        ensures
            r.name@ == name@,
            r.value@ == value@,
            r.value_type == value_type,
    {
        SkUIValue { name: name.to_owned(), value, value_type }
    }
}

/// Turns decoded plugin filenames into display rows, one per name, in order.
pub fn convert_plugins_to_skui(plugins: Vec<String>) -> (r: Vec<SkUIValue>)
    ensures
        r@.len() == plugins@.len(),
        forall|i: int|
            #![trigger r@[i]]
            0 <= i < plugins@.len() ==> r@[i].name@ == plugins@[i]@ && r@[i].value@ == plugins@[i]@
                && r@[i].value_type == UIValueType::Plugin,
{
    let mut skui_plugins: Vec<SkUIValue> = Vec::new();
    let n = plugins.len();
    let mut i: usize = 0;
    while i < n
        invariant
            n == plugins.len(),
            i <= n,
            skui_plugins@.len() == i,
            forall|j: int|
                #![trigger skui_plugins@[j]]
                0 <= j < i ==> skui_plugins@[j].name@ == plugins@[j]@ && skui_plugins@[j].value@
                    == plugins@[j]@ && skui_plugins@[j].value_type == UIValueType::Plugin,
        decreases n - i,
    {
        let plugin = &plugins[i];
        let new_plugin = SkUIValue::new(plugin.as_str(), plugin.clone(), UIValueType::Plugin);
        let ghost prev = skui_plugins@;
        skui_plugins.push(new_plugin);
        proof {
            assert forall|j: int| #![trigger skui_plugins@[j]] 0 <= j < i + 1 implies skui_plugins@[
                j
            ].name@ == plugins@[j]@ && skui_plugins@[j].value@ == plugins@[j]@ && skui_plugins@[
                j
            ].value_type == UIValueType::Plugin by {
                if j < i {
                    assert(skui_plugins@[j] == prev[j]);
                } else {
                    assert(skui_plugins@[j] == skui_plugins@.last());
                }
            }
        }
        i = i + 1;
    }
    skui_plugins
}

/// The key naming which game edition's on-disk roots the scanners read.
pub fn edition_key(generation: Generation) -> (r: &'static str)
    ensures
        generation == Generation::SpecialEdition ==> r@ == "skyrimse"@,
        generation == Generation::LegacyEngine ==> r@ == "skyrim"@,
{
    match generation {
        Generation::SpecialEdition => "skyrimse",
        Generation::LegacyEngine => "skyrim",
    }
}

/// Everything one loaded session displays: the selected paths, the decoded
/// save, the two membership sources, and the derived display rows.
#[derive(Clone, Debug)]
pub struct AppState {
    /// The selected save file path.
    pub file_path: String,
    /// The decoded save, if the last load succeeded.
    pub save_info: Option<SaveInfo>,
    /// The plugin-to-mod map for the current edition.
    pub mod_map: ModInventory,
    /// The enabled filenames for the current edition.
    pub installed: InstalledSet,
    /// The error of the last failed load, if it failed.
    pub error: Option<DecodeError>,
    /// Display rows for the decoded plugin list.
    pub plugins: Option<Vec<SkUIValue>>,
    /// The selected folder to list save files from.
    pub folder_path: String,
    /// The save files found in the selected folder.
    pub save_file_list: Vec<String>,
}

impl AppState {
    /// The application's display name.
    pub fn name(&self) -> (r: &'static str)
        ensures
            r@ == "Arcanaeum"@,
    {
        "Arcanaeum"
    }
}

/// Applies the outcome of one save-load to the session state, atomically: on
/// success the decoded save, the freshly rebuilt mod map and installed set,
/// and the derived display rows replace the old ones together and the error
/// is cleared; on failure only the error is set — the previously loaded
/// save, its display rows, the mod map and the installed set all stay
/// untouched and displayed, so a failed load never leaves a half-updated
/// state. The selected paths and folder listing are untouched either way.
pub fn load_savegame_file(
    ast: AppState,
    loaded: Result<SaveInfo, DecodeError>,
    mod_map: ModInventory,
    installed: InstalledSet,
) -> (r: AppState)
    requires
        loaded is Ok ==> model_wf(loaded->Ok_0@),
    ensures
        r.file_path == ast.file_path,
        r.folder_path == ast.folder_path,
        r.save_file_list == ast.save_file_list,
        match loaded {
            Ok(info) => {
                &&& r.save_info == Some(info)
                &&& r.error is None
                &&& r.mod_map == mod_map
                &&& r.installed == installed
                &&& r.plugins is Some
                &&& r.plugins->Some_0@.len() == info.plugin_info.plugin_seq().len()
                &&& forall|i: int|
                    #![trigger r.plugins->Some_0@[i]]
                    0 <= i < info.plugin_info.plugin_seq().len()
                        ==> r.plugins->Some_0@[i].name@ == ascii_str_of(
                        info.plugin_info.plugin_seq()[i],
                    ) && r.plugins->Some_0@[i].value@ == ascii_str_of(
                        info.plugin_info.plugin_seq()[i],
                    ) && r.plugins->Some_0@[i].value_type == UIValueType::Plugin
            },
            Err(e) => {
                &&& r.error == Some(e)
                &&& r.save_info == ast.save_info
                &&& r.plugins == ast.plugins
                &&& r.mod_map == ast.mod_map
                &&& r.installed == ast.installed
            },
        },
{
    match loaded {
        Ok(values) => {
            let mut rows: Vec<SkUIValue> = Vec::new();
            let n = values.plugin_info.plugins.len();
            let mut k: usize = 0;
            while k < n
                invariant
                    n == values.plugin_info.plugins.len(),
                    k <= n,
                    model_wf(values@),
                    rows@.len() == k,
                    forall|j: int|
                        #![trigger rows@[j]]
                        0 <= j < k ==> rows@[j].name@ == ascii_str_of(
                            values.plugin_info.plugin_seq()[j],
                        ) && rows@[j].value@ == ascii_str_of(values.plugin_info.plugin_seq()[j])
                            && rows@[j].value_type == UIValueType::Plugin,
                decreases n - k,
            {
                assert(crate::names::valid_name(values@.plugins[k as int]));
                let text = bytes_to_string(crate::names::copy_name(
                    &values.plugin_info.plugins[k],
                ));
                let row = SkUIValue::new(text.as_str(), text.clone(), UIValueType::Plugin);
                let ghost prev = rows@;
                rows.push(row);
                proof {
                    assert forall|j: int| #![trigger rows@[j]] 0 <= j < k + 1 implies rows@[j].name@
                        == ascii_str_of(values.plugin_info.plugin_seq()[j]) && rows@[j].value@
                        == ascii_str_of(values.plugin_info.plugin_seq()[j]) && rows@[j].value_type
                        == UIValueType::Plugin by {
                        if j < k {
                            assert(rows@[j] == prev[j]);
                        } else {
                            assert(rows@[j] == rows@.last());
                        }
                    }
                }
                k = k + 1;
            }
            AppState {
                file_path: ast.file_path,
                save_info: Some(values),
                mod_map,
                installed,
                error: None,
                plugins: Some(rows),
                folder_path: ast.folder_path,
                save_file_list: ast.save_file_list,
            }
        },
        Err(e) => AppState {
            file_path: ast.file_path,
            save_info: ast.save_info,
            mod_map: ast.mod_map,
            installed: ast.installed,
            error: Some(e),
            plugins: ast.plugins,
            folder_path: ast.folder_path,
            save_file_list: ast.save_file_list,
        },
    }
}

} // verus!
