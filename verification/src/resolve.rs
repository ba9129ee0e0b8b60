use vstd::prelude::*;

use crate::installed::InstalledSet;
use crate::inventory::ModInventory;
use crate::names::{copy_name, fold_name};
use crate::save::PluginManifest;

verus! {

/// How one manifest entry stands against the installed set and the mod
/// inventory.
#[derive(Clone, Copy, Debug, PartialEq, Eq, Structural)]
pub enum PluginStatus {
    /// Enabled in the load order and provided by a known mod.
    InstalledKnownMod,
    /// Enabled in the load order but no mod claims it.
    InstalledUnknownMod,
    /// Not enabled, yet a known mod provides it.
    MissingKnownMod,
    /// Not enabled and no mod claims it.
    MissingUnmanaged,
}

/// The status the two membership facts determine.
pub open spec fn status_of(installed: bool, known: bool) -> PluginStatus {
    if installed && known {
        PluginStatus::InstalledKnownMod
    } else if installed {
        PluginStatus::InstalledUnknownMod
    } else if known {
        PluginStatus::MissingKnownMod
    } else {
        PluginStatus::MissingUnmanaged
    }
}

/// One manifest entry with its derived status.
#[derive(Clone, Debug, PartialEq, Eq)]
pub struct AnnotatedPlugin {
    /// The plugin filename, as it stands in the manifest.
    pub name: Vec<u8>,
    /// The derived status; never stored independently of its two source
    /// facts.
    pub status: PluginStatus,
}

/// Annotates every manifest entry — standard plugins first, then light
/// plugins, each table in its recorded load order — with the status the 2x2
/// membership table assigns it. Pure: no I/O and no failure mode.
pub fn resolve(manifest: &PluginManifest, inventory: &ModInventory, installed: &InstalledSet) -> (r:
    Vec<AnnotatedPlugin>)
    ensures
        r@.len() == manifest.all_names().len(),
        forall|i: int|
            #![trigger r@[i]]
            0 <= i < r@.len() ==> r@[i].name@ == manifest.all_names()[i] && r@[i].status
                == status_of(
                installed.spec_contains(manifest.all_names()[i]),
                inventory.spec_contains(manifest.all_names()[i]),
            ),
{
    let mut out = annotate_table(&manifest.plugins, inventory, installed);
    let ghost first = out@;
    let mut rest = annotate_table(&manifest.light_plugins, inventory, installed);
    let ghost second = rest@;
    out.append(&mut rest);
    proof {
        let all = manifest.all_names();
        assert(names_seq(manifest.plugins@) + names_seq(manifest.light_plugins@) =~= all);
        assert(out@ == first + second);
        assert forall|i: int| #![trigger out@[i]] 0 <= i < out@.len() implies out@[i].name@
            == all[i] && out@[i].status == status_of(
            installed.spec_contains(all[i]),
            inventory.spec_contains(all[i]),
        ) by {
            if i < first.len() {
                assert(out@[i] == first[i]);
                assert(all[i] == names_seq(manifest.plugins@)[i]);
            } else {
                assert(out@[i] == second[i - first.len()]);
                assert(all[i] == names_seq(manifest.light_plugins@)[i - first.len()]);
            }
        }
    }
    out
}

/// The views of a vector of byte names.
spec fn names_seq(v: Seq<Vec<u8>>) -> Seq<Seq<u8>> {
    crate::names::names_of(v)
}

/// Annotates one plugin table in its recorded order.
fn annotate_table(table: &Vec<Vec<u8>>, inventory: &ModInventory, installed: &InstalledSet) -> (r:
    Vec<AnnotatedPlugin>)
    ensures
        r@.len() == table@.len(),
        forall|i: int|
            #![trigger r@[i]]
            0 <= i < table@.len() ==> r@[i].name@ == names_seq(table@)[i] && r@[i].status
                == status_of(
                installed.spec_contains(names_seq(table@)[i]),
                inventory.spec_contains(names_seq(table@)[i]),
            ),
{
    let mut out: Vec<AnnotatedPlugin> = Vec::new();
    let n = table.len();
    let mut k: usize = 0;
    while k < n
        invariant
            n == table.len(),
            k <= n,
            out@.len() == k,
            forall|i: int|
                #![trigger out@[i]]
                0 <= i < k ==> out@[i].name@ == names_seq(table@)[i] && out@[i].status
                    == status_of(
                    installed.spec_contains(names_seq(table@)[i]),
                    inventory.spec_contains(names_seq(table@)[i]),
                ),
        decreases n - k,
    {
        let name = copy_name(&table[k]);
        let is_installed = installed.contains(&name);
        let is_known = inventory.contains(&name);
        let status = if is_installed && is_known {
            PluginStatus::InstalledKnownMod
        } else if is_installed {
            PluginStatus::InstalledUnknownMod
        } else if is_known {
            PluginStatus::MissingKnownMod
        } else {
            PluginStatus::MissingUnmanaged
        };
        let ghost prev = out@;
        let ghost query = name@;
        out.push(AnnotatedPlugin { name, status });
        proof {
            assert(query == names_seq(table@)[k as int]);
            assert(status == status_of(
                installed.spec_contains(names_seq(table@)[k as int]),
                inventory.spec_contains(names_seq(table@)[k as int]),
            ));
            assert forall|i: int| #![trigger out@[i]] 0 <= i < k + 1 implies out@[i].name@
                == names_seq(table@)[i] && out@[i].status == status_of(
                installed.spec_contains(names_seq(table@)[i]),
                inventory.spec_contains(names_seq(table@)[i]),
            ) by {
                if i < k {
                    assert(out@[i] == prev[i]);
                } else {
                    assert(out@[i] == out@.last());
                }
            }
        }
        k = k + 1;
    }
    out
}

/// Filename matching is case-insensitive everywhere: names with equal folded
/// forms are looked up identically in the inventory and the installed set,
/// and so resolve to the same status.
pub proof fn lemma_case_insensitive(
    inventory: &ModInventory,
    installed: &InstalledSet,
    a: Seq<u8>,
    b: Seq<u8>,
)
    requires
        fold_name(a) == fold_name(b),
    ensures
        inventory.spec_lookup(a) == inventory.spec_lookup(b),
        inventory.spec_contains(a) == inventory.spec_contains(b),
        installed.spec_contains(a) == installed.spec_contains(b),
        status_of(installed.spec_contains(a), inventory.spec_contains(a)) == status_of(
            installed.spec_contains(b),
            inventory.spec_contains(b),
        ),
{
}

/// With an empty mod inventory nothing is known: every entry resolves to the
/// unknown-equivalent of its installed half — what would have been
/// `InstalledKnownMod` becomes `InstalledUnknownMod`, and every missing
/// entry becomes `MissingUnmanaged`.
pub proof fn lemma_empty_inventory_degrades(
    inventory: &ModInventory,
    installed_half: bool,
    known_before: bool,
    name: Seq<u8>,
)
    requires
        inventory.claims().len() == 0,
    ensures
        !inventory.spec_contains(name),
        status_of(installed_half, inventory.spec_contains(name)) == (
        if installed_half {
            PluginStatus::InstalledUnknownMod
        } else {
            PluginStatus::MissingUnmanaged
        }),
        status_of(installed_half, known_before) is InstalledKnownMod
            || status_of(installed_half, known_before) is InstalledUnknownMod
            <==> status_of(installed_half, inventory.spec_contains(name))
            is InstalledUnknownMod,
{
}

} // verus!
