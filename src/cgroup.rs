//! The cgroup handle, and the view of one controller's directory that it hands out.
use vstd::prelude::*;

use crate::bytemap::ByteMap;
use crate::bytes::{copy_all, join, join_path, strip_leading_slash, strip_slash};
use crate::placement::{parse_placement, placement_of};

verus! {

/// The directory of controller `name` for a process placed at `placement`
/// within that controller's hierarchy, under the mount root `base`.
pub open spec fn controller_path(base: Seq<u8>, name: Seq<u8>, placement: Seq<u8>) -> Seq<u8> {
    join(join(base, name), strip_leading_slash(placement))
}

/// One entry of a directory listing.
pub struct DirEntry {
    /// The entry's file name.
    pub name: Vec<u8>,
    /// Whether the entry is a regular file.
    pub is_file: bool,
}

/// The attribute cache that a listing `entries` of `dir` seeds: each regular
/// file's name, mapped to its path.
pub open spec fn seeded_cache(dir: Seq<u8>, entries: Seq<DirEntry>) -> Map<Seq<u8>, Seq<u8>>
    decreases entries.len(),
{
    if entries.len() == 0 {
        Map::empty()
    } else {
        let rest = seeded_cache(dir, entries.drop_last());
        let e = entries.last();
        if e.is_file {
            rest.insert(e.name@, join(dir, e.name@))
        } else {
            rest
        }
    }
}

/// The cache after `key` was looked up in `cache`, a view of `dir`: an unknown
/// key is recorded with the path it would have in `dir`.
pub open spec fn cache_after_lookup(
    dir: Seq<u8>,
    cache: Map<Seq<u8>, Seq<u8>>,
    key: Seq<u8>,
) -> Map<Seq<u8>, Seq<u8>> {
    if cache.contains_key(key) {
        cache
    } else {
        cache.insert(key, join(dir, key))
    }
}

/// A lookup of `key` leaves the key in the cache and removes nothing from it;
/// a second lookup of the same key changes the cache no more and finds the
/// same path as the first.
pub proof fn lemma_lookup_settles(dir: Seq<u8>, cache: Map<Seq<u8>, Seq<u8>>, key: Seq<u8>)
    ensures
        cache_after_lookup(dir, cache, key).contains_key(key),
        cache.submap_of(cache_after_lookup(dir, cache, key)),
        cache_after_lookup(dir, cache_after_lookup(dir, cache, key), key) == cache_after_lookup(
            dir,
            cache,
            key,
        ),
{
}

/// The control groups of one process, per controller, under the mount root of
/// the cgroup filesystem.
pub struct CGroup {
    basepath: Vec<u8>,
    controllers: ByteMap,
}

/// One controller's directory for a process, with a cache from attribute name
/// to attribute file path.
pub struct Controller {
    path: Vec<u8>,
    cache: ByteMap,
}

impl CGroup {
    /// The placement map keeps its keys unique.
    pub closed spec fn wf(&self) -> bool {
        self.controllers.wf()
    }

    /// The mount root of the cgroup filesystem.
    pub closed spec fn basepath(&self) -> Seq<u8> {
        self.basepath@
    }

    /// Controller name to the process's path within that controller's hierarchy.
    pub closed spec fn placement(&self) -> Map<Seq<u8>, Seq<u8>> {
        self.controllers@
    }

    /// The handle for the process whose procfs cgroup file holds `contents`,
    /// with the cgroup filesystem mounted at `base`.
    pub fn from_base_and_contents(base: Vec<u8>, contents: &[u8]) -> (r: CGroup)
        ensures
            r.wf(),
            r.basepath() == base@,
            r.placement() == placement_of(contents@),
    {
        CGroup { basepath: base, controllers: parse_placement(contents) }
    }

    /// The mount root of the cgroup filesystem.
    pub fn base(&self) -> (r: &Vec<u8>)
        ensures
            r@ == self.basepath(),
    {
        &self.basepath
    }

    /// The process's path within the hierarchy of controller `name`, if the
    /// placement lists it.
    pub fn placement_path(&self, name: &[u8]) -> (r: Option<&Vec<u8>>)
        requires
            self.wf(),
        ensures
            match r {
                Some(p) => self.placement().contains_key(name@) && p@ == self.placement()[name@],
                None => !self.placement().contains_key(name@),
            },
    {
        self.controllers.get(name)
    }

    /// The number of controllers that the placement lists.
    pub fn placement_len(&self) -> (r: usize)
        requires
            self.wf(),
        ensures
            self.placement().dom().finite(),
            r == self.placement().len(),
    {
        self.controllers.len()
    }

    /// The directory of controller `name`, if the placement lists it.
    pub fn controller_dir(&self, name: &[u8]) -> (r: Option<Vec<u8>>)
        requires
            self.wf(),
        ensures
            match r {
                Some(d) => self.placement().contains_key(name@) && d@ == controller_path(
                    self.basepath(),
                    name@,
                    self.placement()[name@],
                ),
                None => !self.placement().contains_key(name@),
            },
    {
        match self.controllers.get(name) {
            Some(p) => {
                let head = join_path(self.basepath.as_slice(), name);
                let rel = strip_slash(p.as_slice());
                Some(join_path(head.as_slice(), rel.as_slice()))
            },
            None => None,
        }
    }

    /// The view of controller `name`, given `listing`, the entries of its
    /// directory (`None` where that directory could not be listed). There is
    /// none where the placement does not list `name` or the listing failed.
    pub fn controller(&self, name: &[u8], listing: Option<Vec<DirEntry>>) -> (r: Option<Controller>)
        requires
            self.wf(),
        ensures
            r is Some <==> self.placement().contains_key(name@) && listing is Some,
            r matches Some(v) ==> {
                let dir = controller_path(self.basepath(), name@, self.placement()[name@]);
                &&& v.wf()
                &&& v.dir() == dir
                &&& v.cache() == seeded_cache(dir, listing.unwrap()@)
            },
    {
        let dir = match self.controller_dir(name) {
            Some(d) => d,
            None => return None,
        };
        match listing {
            Some(entries) => Some(Controller::from_listing(dir, &entries)),
            None => None,
        }
    }
}

impl Controller {
    /// The attribute cache keeps its keys unique.
    pub closed spec fn wf(&self) -> bool {
        self.cache.wf()
    }

    /// The controller's directory.
    pub closed spec fn dir(&self) -> Seq<u8> {
        self.path@
    }

    /// Attribute name to attribute file path.
    pub closed spec fn cache(&self) -> Map<Seq<u8>, Seq<u8>> {
        self.cache@
    }

    /// The view of `dir`, its cache seeded from the listing `entries` of `dir`.
    pub fn from_listing(dir: Vec<u8>, entries: &Vec<DirEntry>) -> (r: Controller)
        ensures
            r.wf(),
            r.dir() == dir@,
            r.cache() == seeded_cache(dir@, entries@),
    {
        let mut cache = ByteMap::new();
        let mut i: usize = 0;
        while i < entries.len()
            invariant
                cache.wf(),
                i <= entries@.len(),
                cache@ == seeded_cache(dir@, entries@.subrange(0, i as int)),
            decreases entries@.len() - i,
        {
            let e = &entries[i];
            if e.is_file {
                let p = join_path(dir.as_slice(), e.name.as_slice());
                cache.insert(copy_all(e.name.as_slice()), p);
            }
            assert(entries@.subrange(0, i + 1).drop_last() =~= entries@.subrange(0, i as int));
            i = i + 1;
        }
        assert(entries@.subrange(0, entries@.len() as int) =~= entries@);
        Controller { path: dir, cache }
    }

    /// The controller's directory.
    pub fn path(&self) -> (r: &Vec<u8>)
        ensures
            r@ == self.dir(),
    {
        &self.path
    }

    /// The cached path of attribute `key`, if the cache holds one.
    pub fn cached(&self, key: &[u8]) -> (r: Option<&Vec<u8>>)
        requires
            self.wf(),
        ensures
            match r {
                Some(p) => self.cache().contains_key(key@) && p@ == self.cache()[key@],
                None => !self.cache().contains_key(key@),
            },
    {
        self.cache.get(key)
    }

    /// The path of attribute `key`. Where the cache does not hold `key` yet, it
    /// records the path that `key` would have in the directory: an attribute
    /// that the listing did not show is still reached.
    pub fn attribute_path(&mut self, key: &[u8]) -> (r: Vec<u8>)
        requires
            old(self).wf(),
        ensures
            final(self).wf(),
            final(self).dir() == old(self).dir(),
            final(self).cache() == cache_after_lookup(old(self).dir(), old(self).cache(), key@),
            final(self).cache().contains_key(key@),
            r@ == final(self).cache()[key@],
    {
        if !self.cache.contains_key(key) {
            let p = join_path(self.path.as_slice(), key);
            self.cache.insert(copy_all(key), p);
        }
        copy_all(self.cache.get(key).unwrap().as_slice())
    }
}

} // verus!
