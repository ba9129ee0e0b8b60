use vstd::prelude::*;

use crate::names::{copy_name, fold_name, fold_name_vec, names_eq};

verus! {

/// One mod package discovered in the mod manager's staging store: its
/// display identity and the plugin files it stages.
#[derive(Clone, Debug, PartialEq, Eq)]
pub struct ModEntry {
    /// The mod's display name or id.
    pub identity: Vec<u8>,
    /// The plugin filenames the mod stages, as found on disk.
    pub plugins: Vec<Vec<u8>>,
}

/// The (folded plugin filename, mod identity) claims of one mod entry, in
/// enumeration order.
pub open spec fn mod_claims(m: ModEntry) -> Seq<(Seq<u8>, Seq<u8>)> {
    m.plugins@.map(|_i: int, p: Vec<u8>| (fold_name(p@), m.identity@))
}

/// All claims of a scan, mod after mod, in enumeration order.
pub open spec fn scan_claims(mods: Seq<ModEntry>) -> Seq<(Seq<u8>, Seq<u8>)>
    decreases mods.len(),
{
    if mods.len() == 0 {
        Seq::empty()
    } else {
        scan_claims(mods.drop_last()) + mod_claims(mods.last())
    }
}

/// The identity of the later-enumerated claim on a folded filename, if any
/// claim is on it.
pub open spec fn last_provider(claims: Seq<(Seq<u8>, Seq<u8>)>, key: Seq<u8>) -> Option<Seq<u8>>
    decreases claims.len(),
{
    if claims.len() == 0 {
        None
    } else if claims.last().0 == key {
        Some(claims.last().1)
    } else {
        last_provider(claims.drop_last(), key)
    }
}

/// One claim held by the inventory.
#[derive(Clone, Debug, PartialEq, Eq)]
struct InventoryEntry {
    plugin: Vec<u8>,
    identity: Vec<u8>,
}

/// The mapping from plugin filename to the mod that provides it, built from
/// a scan of the mod manager's staging store.
///
/// It records every (plugin, mod) claim in enumeration order; when two mods
/// claim the same filename the later-enumerated one wins, and lookups fold
/// their query, so all matching is case-insensitive.
#[derive(Clone, Debug, PartialEq, Eq)]
pub struct ModInventory {
    entries: Vec<InventoryEntry>,
}

impl ModInventory {
    /// The recorded claims: folded filename and mod identity, in enumeration
    /// order.
    pub closed spec fn claims(&self) -> Seq<(Seq<u8>, Seq<u8>)> {
        self.entries@.map(|_i: int, e: InventoryEntry| (e.plugin@, e.identity@))
    }

    /// Whether some mod claims the filename, case-insensitively.
    pub open spec fn spec_contains(&self, name: Seq<u8>) -> bool {
        self.spec_lookup(name) is Some
    }

    /// The identity of the winning (later-enumerated) mod for the filename.
    pub open spec fn spec_lookup(&self, name: Seq<u8>) -> Option<Seq<u8>> {
        last_provider(self.claims(), fold_name(name))
    }

    /// An inventory with nothing in it: the legitimate state of a machine
    /// whose mod-manager store does not exist.
    pub fn new() -> (r: ModInventory)
        ensures
            r.claims() == Seq::<(Seq<u8>, Seq<u8>)>::empty(),
    {
        let r = ModInventory { entries: Vec::new() };
        proof {
            assert(r.claims() =~= Seq::<(Seq<u8>, Seq<u8>)>::empty());
        }
        r
    }

    /// How many claims the inventory records.
    pub fn claim_count(&self) -> (r: usize)
        ensures
            r == self.claims().len(),
    {
        self.entries.len()
    }

    /// Records a claim: the given mod stages the given plugin file. The
    /// filename is folded as it is stored.
    pub fn insert(&mut self, plugin: Vec<u8>, identity: Vec<u8>)
        ensures
            final(self).claims() == old(self).claims().push((fold_name(plugin@), identity@)),
    {
        let folded = fold_name_vec(&plugin);
        self.entries.push(InventoryEntry { plugin: folded, identity });
        proof {
            assert(self.claims() =~= old(self).claims().push((fold_name(plugin@), identity@)));
        }
    }

    /// The identity of the mod providing the filename: the later-enumerated
    /// claim wins, and matching is case-insensitive.
    pub fn lookup(&self, name: &Vec<u8>) -> (r: Option<&Vec<u8>>)
        ensures
            match r {
                Some(id) => self.spec_lookup(name@) == Some(id@),
                None => self.spec_lookup(name@) is None,
            },
    {
        let key = fold_name_vec(name);
        let mut i: usize = self.entries.len();
        proof {
            assert(self.claims().take(i as int) =~= self.claims());
        }
        while i > 0
            invariant
                i <= self.entries.len(),
                key@ == fold_name(name@),
                last_provider(self.claims(), key@) == last_provider(
                    self.claims().take(i as int),
                    key@,
                ),
            decreases i,
        {
            i = i - 1;
            let ghost part = self.claims().take(i + 1);
            proof {
                assert(part.last() == self.claims()[i as int]);
                assert(part.drop_last() =~= self.claims().take(i as int));
            }
            if names_eq(&self.entries[i].plugin, &key) {
                assert(last_provider(part, key@) == Some(self.claims()[i as int].1));
                return Some(&self.entries[i].identity);
            }
        }
        proof {
            assert(self.claims().take(0) =~= Seq::<(Seq<u8>, Seq<u8>)>::empty());
        }
        None
    }

    /// Whether some mod claims the filename, case-insensitively.
    pub fn contains(&self, name: &Vec<u8>) -> (r: bool)
        ensures
            r == self.spec_contains(name@),
    {
        match self.lookup(name) {
            Some(_) => true,
            None => false,
        }
    }
}

/// Builds the inventory from the scanned mod entries, in enumeration order.
/// A missing or unreadable store is handed in as an empty scan and yields an
/// empty inventory: absence is a legitimate state, not an error.
pub fn build_mod_inventory(mods: &Vec<ModEntry>) -> (r: ModInventory)
    ensures
        r.claims() == scan_claims(mods@),
        forall|q: Seq<u8>| #[trigger] r.spec_lookup(q) == last_provider(
            scan_claims(mods@),
            fold_name(q),
        ),
{
    let mut inv = ModInventory::new();
    let n = mods.len();
    let mut j: usize = 0;
    proof {
        assert(mods@.take(0) =~= Seq::<ModEntry>::empty());
        assert(inv.claims() =~= scan_claims(mods@.take(0)));
    }
    while j < n
        invariant
            n == mods.len(),
            j <= n,
            inv.claims() == scan_claims(mods@.take(j as int)),
        decreases n - j,
    {
        let entry = &mods[j];
        let m = entry.plugins.len();
        let mut k: usize = 0;
        proof {
            assert(mod_claims(mods@[j as int]).take(0) =~= Seq::<(Seq<u8>, Seq<u8>)>::empty());
            assert(inv.claims() =~= scan_claims(mods@.take(j as int)) + mod_claims(
                mods@[j as int],
            ).take(0));
        }
        while k < m
            invariant
                n == mods.len(),
                j < n,
                m == mods@[j as int].plugins.len(),
                k <= m,
                inv.claims() == scan_claims(mods@.take(j as int)) + mod_claims(
                    mods@[j as int],
                ).take(k as int),
            decreases m - k,
        {
            let plugin = copy_name(&mods[j].plugins[k]);
            let identity = copy_name(&mods[j].identity);
            inv.insert(plugin, identity);
            proof {
                assert(mod_claims(mods@[j as int])[k as int] == (
                    fold_name(mods@[j as int].plugins@[k as int]@),
                    mods@[j as int].identity@,
                ));
                assert(mod_claims(mods@[j as int]).take(k + 1) =~= mod_claims(
                    mods@[j as int],
                ).take(k as int).push(mod_claims(mods@[j as int])[k as int]));
                assert(inv.claims() =~= scan_claims(mods@.take(j as int)) + mod_claims(
                    mods@[j as int],
                ).take(k + 1));
            }
            k = k + 1;
        }
        proof {
            assert(mod_claims(mods@[j as int]).take(m as int) =~= mod_claims(mods@[j as int]));
            let upto = mods@.take(j + 1);
            assert(upto.drop_last() =~= mods@.take(j as int));
            assert(upto.last() == mods@[j as int]);
            assert(inv.claims() =~= scan_claims(mods@.take(j + 1)));
        }
        j = j + 1;
    }
    proof {
        assert(mods@.take(n as int) =~= mods@);
    }
    inv
}

} // verus!
