//! The source registry: owns every opened frame source for a run, keyed by
//! content hash. Insertion validates the source and fails on a hash that is
//! already present, so the same physical file opened twice collapses to one
//! entry. Nothing is ever evicted.

use vstd::prelude::*;

use crate::datasource::DataSource;
use crate::error::SolhatError;

verus! {

/// An opened source beside the content hash it is keyed by.
pub struct FpEntry<F: DataSource> {
    pub hash: String,
    pub source: F,
}

/// The registry of opened frame sources.
pub struct FpMap<F: DataSource> {
    pub entries: Vec<FpEntry<F>>,
}

/// Some entry carries this hash.
pub open spec fn spec_contains_hash<F: DataSource>(s: Seq<FpEntry<F>>, h: Seq<char>) -> bool {
    exists|i: int| 0 <= i < s.len() && #[trigger] s[i].hash@ == h
}

/// The index of the entry carrying this hash.
pub open spec fn spec_index_of_hash<F: DataSource>(s: Seq<FpEntry<F>>, h: Seq<char>) -> int {
    choose|i: int| 0 <= i < s.len() && #[trigger] s[i].hash@ == h
}

impl<F: DataSource> FpMap<F> {
    /// Hashes are unique, every source is consistent and validated, and each
    /// entry's key is its source's own content hash.
    pub open spec fn wf(&self) -> bool {
        &&& forall|i: int, j: int|
            #![trigger self.entries@[i], self.entries@[j]]
            0 <= i < j < self.entries@.len() ==> self.entries@[i].hash@
                != self.entries@[j].hash@
        &&& forall|i: int|
            0 <= i < self.entries@.len() ==> (#[trigger] self.entries@[i].source.inv()
                && self.entries@[i].hash@ == self.entries@[i].source.spec_hash()
                && self.entries@[i].source.spec_valid())
    }

    pub fn new() -> (r: FpMap<F>)
        ensures
            r.wf(),
            r.entries@.len() == 0,
    {
        FpMap { entries: Vec::new() }
    }

    pub fn get_map(&self) -> (r: &Vec<FpEntry<F>>)
        ensures
            r == &self.entries,
    {
        &self.entries
    }

    /// Whether a source with this content hash is already registered.
    pub fn contains(&self, path: &String) -> (r: bool)
        ensures
            r == spec_contains_hash(self.entries@, path@),
    {
        let n = self.entries.len();
        let mut i: usize = 0;
        while i < n
            invariant
                i <= n,
                n == self.entries@.len(),
                forall|k: int| 0 <= k < i ==> #[trigger] self.entries@[k].hash@ != path@,
            decreases n - i,
        {
            if self.entries[i].hash == *path {
                return true;
            }
            i += 1;
        }
        false
    }

    /// The registered source with this content hash.
    #[verifier::loop_isolation(false)]
    pub fn get(&self, path: &String) -> (r: Option<&F>)
        requires
            self.wf(),
        ensures
            r is Some <==> spec_contains_hash(self.entries@, path@),
            r is Some ==> {
                let i = spec_index_of_hash(self.entries@, path@);
                &&& *r->0 == self.entries@[i].source
                &&& r->0.inv()
                &&& r->0.spec_hash() == path@
            },
    {
        let n = self.entries.len();
        let mut i: usize = 0;
        while i < n
            invariant
                i <= n,
                n == self.entries@.len(),
                forall|k: int| 0 <= k < i ==> #[trigger] self.entries@[k].hash@ != path@,
            decreases n - i,
        {
            if self.entries[i].hash == *path {
                proof {
                    assert(self.entries@[i as int].hash@ == path@);
                    assert(spec_contains_hash(self.entries@, path@));
                    let j = spec_index_of_hash(self.entries@, path@);
                    assert(0 <= j < self.entries@.len() && self.entries@[j].hash@ == path@);
                    if j < i as int {
                        assert(self.entries@[j].hash@ != self.entries@[i as int].hash@);
                        assert(false);
                    } else if j > i as int {
                        assert(self.entries@[i as int].hash@ != self.entries@[j].hash@);
                        assert(false);
                    }
                }
                return Some(&self.entries[i].source);
            }
            i += 1;
        }
        None
    }

    /// Register an opened source: self-validate it, refuse a duplicate
    /// content hash, otherwise take ownership.
    pub fn open(&mut self, source: F) -> (r: Result<(), SolhatError>)
        requires
            old(self).wf(),
            source.inv(),
        ensures
            final(self).wf(),
            r is Ok <==> (source.spec_valid() && !spec_contains_hash(
                old(self).entries@,
                source.spec_hash(),
            )),
            r is Ok ==> final(self).entries@.len() == old(self).entries@.len() + 1
                && final(self).entries@.subrange(0, old(self).entries@.len() as int) == old(
                self,
            ).entries@ && final(self).entries@.last().source == source,
            source.spec_valid() && spec_contains_hash(old(self).entries@, source.spec_hash())
                ==> r == Err::<(), SolhatError>(SolhatError::DuplicateSource) && *final(self)
                == *old(self),
            !source.spec_valid() ==> *final(self) == *old(self),
    {
        match source.validate() {
            Ok(_) => {},
            Err(e) => {
                return Err(e);
            },
        }
        let hash = source.file_hash();
        if self.contains(&hash) {
            return Err(SolhatError::DuplicateSource);
        }
        let ghost pre = self.entries@;
        self.entries.push(FpEntry { hash, source });
        proof {
            assert(self.entries@.subrange(0, pre.len() as int) =~= pre);
        }
        Ok(())
    }
}

} // verus!
