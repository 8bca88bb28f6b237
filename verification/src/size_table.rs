//! The sizes that were measured, kept by package.

use crate::package::{PackageView, ResolvedPackage};
use vstd::prelude::*;
use vstd::string::*;

verus! {

/// The measured size of one resolved package.
pub struct SizeEntry {
    pub package: ResolvedPackage,
    /// The bytes below the package's root.
    pub size: u64,
}

/// What a run of entries records, a later entry for a package replacing an
/// earlier one.
spec fn recorded(entries: Seq<SizeEntry>) -> Map<PackageView, u64>
    decreases entries.len(),
{
    if entries.len() == 0 {
        Map::empty()
    } else {
        recorded(entries.drop_last()).insert(entries.last().package@, entries.last().size)
    }
}

/// No two entries are for the same package.
spec fn one_entry_each(entries: Seq<SizeEntry>) -> bool {
    forall|i: int, j: int|
        0 <= i < j < entries.len() ==> (#[trigger] entries[i]).package@ != (
        #[trigger] entries[j]).package@
}

/// What `recorded` holds: the packages of the entries, and for each package
/// that has one entry only, that entry's size.
proof fn lemma_recorded(entries: Seq<SizeEntry>)
    ensures
        forall|key: PackageView| #[trigger]
            recorded(entries).contains_key(key) <==> exists|i: int|
                0 <= i < entries.len() && (#[trigger] entries[i]).package@ == key,
        one_entry_each(entries) ==> forall|i: int|
            0 <= i < entries.len() ==> recorded(entries)[(#[trigger] entries[i]).package@]
                == entries[i].size,
    decreases entries.len(),
{
    if entries.len() > 0 {
        let before = entries.drop_last();
        lemma_recorded(before);
        assert forall|key: PackageView| #[trigger]
            recorded(entries).contains_key(key) implies exists|i: int|
            0 <= i < entries.len() && (#[trigger] entries[i]).package@ == key by {
            if key == entries.last().package@ {
                assert(entries[entries.len() - 1].package@ == key);
            } else {
                assert(recorded(before).contains_key(key));
                let i = choose|i: int| 0 <= i < before.len() && (#[trigger] before[i]).package@ == key;
                assert(entries[i].package@ == key);
            }
        }
        assert forall|key: PackageView|
            (exists|i: int|
                0 <= i < entries.len() && (#[trigger] entries[i]).package@
                    == key) implies #[trigger] recorded(entries).contains_key(key) by {
            let i = choose|i: int| 0 <= i < entries.len() && (#[trigger] entries[i]).package@ == key;
            if i < before.len() {
                assert(before[i].package@ == key);
                assert(recorded(before).contains_key(key));
            } else {
                assert(key == entries.last().package@);
            }
        }
        if one_entry_each(entries) {
            assert(one_entry_each(before)) by {
                assert forall|i: int, j: int| 0 <= i < j < before.len() implies (
                #[trigger] before[i]).package@ != (#[trigger] before[j]).package@ by {
                    assert(entries[i].package@ != entries[j].package@);
                }
            }
            assert forall|i: int| 0 <= i < entries.len() implies recorded(entries)[(
            #[trigger] entries[i]).package@] == entries[i].size by {
                if i < before.len() {
                    assert(before[i].package@ == entries[i].package@);
                    assert(entries[i].package@ != entries[entries.len() - 1].package@);
                    assert(recorded(before)[before[i].package@] == before[i].size);
                }
            }
        }
    }
}

/// The sizes measured so far, at most one for each package.
pub struct SizeTable {
    entries: Vec<SizeEntry>,
}

impl View for SizeTable {
    type V = Map<PackageView, u64>;

    closed spec fn view(&self) -> Map<PackageView, u64> {
        recorded(self.entries@)
    }
}

impl SizeTable {
    #[verifier::type_invariant]
    closed spec fn wf(&self) -> bool {
        one_entry_each(self.entries@)
    }

    /// A table without sizes.
    pub fn new() -> (table: SizeTable)
        ensures
            table@ == Map::<PackageView, u64>::empty(),
    {
        SizeTable { entries: Vec::new() }
    }

    /// The place of the entry for `package`, where there is one.
    fn find(&self, package: &ResolvedPackage) -> (r: Option<usize>)
        ensures
            match r {
                Some(i) => i < self.entries@.len() && self.entries@[i as int].package@ == package@,
                None => forall|i: int|
                    0 <= i < self.entries@.len() ==> (#[trigger] self.entries@[i]).package@
                        != package@,
            },
    {
        let mut i: usize = 0;
        while i < self.entries.len()
            invariant
                i <= self.entries@.len(),
                forall|k: int| 0 <= k < i ==> (#[trigger] self.entries@[k]).package@ != package@,
            decreases self.entries@.len() - i,
        {
            let entry = &self.entries[i];
            if entry.package.name == package.name && entry.package.version.same(&package.version) {
                return Some(i);
            }
            i += 1;
        }
        None
    }

    /// Records the size of a package, in place of the size recorded for
    /// that package before, if any.
    pub fn insert(&mut self, entry: SizeEntry)
        ensures
            final(self)@ == old(self)@.insert(entry.package@, entry.size),
    {
        let SizeEntry { package, size } = entry;
        proof {
            use_type_invariant(&*self);
        }
        let ghost before = self.entries@;
        let ghost key = package@;
        let found = self.find(&package);
        let mut entries: Vec<SizeEntry> = Vec::new();
        core::mem::swap(&mut self.entries, &mut entries);
        match found {
            Some(i) => {
                entries.set(i, SizeEntry { package, size });
                proof {
                    let after = entries@;
                    assert(one_entry_each(after)) by {
                        assert forall|p: int, q: int| 0 <= p < q < after.len() implies (
                        #[trigger] after[p]).package@ != (#[trigger] after[q]).package@ by {
                            assert(before[p].package@ != before[q].package@);
                        }
                    }
                    lemma_recorded(before);
                    lemma_recorded(after);
                    assert forall|k: PackageView| #[trigger]
                        recorded(after).contains_key(k) <==> recorded(before).insert(
                            key,
                            size,
                        ).contains_key(k) by {
                        if recorded(after).contains_key(k) {
                            let p = choose|p: int|
                                0 <= p < after.len() && (#[trigger] after[p]).package@ == k;
                            assert(before[p].package@ == k);
                        }
                        if recorded(before).contains_key(k) {
                            let p = choose|p: int|
                                0 <= p < before.len() && (#[trigger] before[p]).package@ == k;
                            assert(after[p].package@ == k);
                        }
                        if k == key {
                            assert(after[i as int].package@ == k);
                        }
                    }
                    assert forall|k: PackageView| #[trigger]
                        recorded(after).contains_key(k) implies recorded(after)[k]
                        == recorded(before).insert(key, size)[k] by {
                        let p = choose|p: int|
                            0 <= p < after.len() && (#[trigger] after[p]).package@ == k;
                        assert(recorded(after)[after[p].package@] == after[p].size);
                        if p != i {
                            assert(recorded(before)[before[p].package@] == before[p].size);
                            assert(before[p].package@ != before[i as int].package@);
                        }
                    }
                    assert(recorded(after) =~= recorded(before).insert(key, size));
                }
            },
            None => {
                entries.push(SizeEntry { package, size });
                proof {
                    let after = entries@;
                    assert(after.drop_last() =~= before);
                    assert(one_entry_each(after)) by {
                        assert forall|p: int, q: int| 0 <= p < q < after.len() implies (
                        #[trigger] after[p]).package@ != (#[trigger] after[q]).package@ by {
                            if q < before.len() {
                                assert(before[p].package@ != before[q].package@);
                            } else {
                                assert(before[p].package@ != key);
                            }
                        }
                    }
                }
            },
        }
        core::mem::swap(&mut self.entries, &mut entries);
    }

    /// The size recorded for `package`, if any.
    pub fn get(&self, package: &ResolvedPackage) -> (r: Option<u64>)
        ensures
            r == if self@.contains_key(package@) {
                Some(self@[package@])
            } else {
                None
            },
    {
        proof {
            use_type_invariant(self);
            lemma_recorded(self.entries@);
        }
        match self.find(package) {
            Some(i) => {
                assert(self.entries@[i as int].package@ == package@);
                Some(self.entries[i].size)
            },
            None => None,
        }
    }

    /// The number of packages with a recorded size.
    pub fn len(&self) -> (n: usize)
        ensures
            n == self@.dom().len(),
            self@.dom().finite(),
    {
        proof {
            use_type_invariant(self);
            lemma_recorded_count(self.entries@);
        }
        self.entries.len()
    }
}

/// Entries for different packages record as many sizes as there are entries.
proof fn lemma_recorded_count(entries: Seq<SizeEntry>)
    requires
        one_entry_each(entries),
    ensures
        recorded(entries).dom().finite(),
        recorded(entries).dom().len() == entries.len(),
    decreases entries.len(),
{
    if entries.len() > 0 {
        let before = entries.drop_last();
        assert(one_entry_each(before)) by {
            assert forall|i: int, j: int| 0 <= i < j < before.len() implies (
            #[trigger] before[i]).package@ != (#[trigger] before[j]).package@ by {
                assert(entries[i].package@ != entries[j].package@);
            }
        }
        lemma_recorded_count(before);
        lemma_recorded(before);
        let key = entries.last().package@;
        if recorded(before).contains_key(key) {
            let i = choose|i: int| 0 <= i < before.len() && (#[trigger] before[i]).package@ == key;
            assert(entries[i].package@ != entries[entries.len() - 1].package@);
        }
        assert(recorded(entries).dom() =~= recorded(before).dom().insert(key));
    }
}

} // verus!
