//! The decoded images that are kept, by what their paths come down to.

use crate::path::{position_of_key, FilePath, PathKey};
use crate::raster::Raster;
use std::sync::Arc;
use vstd::prelude::*;

verus! {

/// Decoded images by path, each upright as decoded. Paths that come down to the same share an
/// entry, however they are spelled.
#[derive(Debug)]
pub struct Cache {
    paths: Vec<FilePath>,
    bases: Vec<Arc<Raster>>,
}

/// The image under the path at the first position where it occurs.
spec fn as_map(paths: Seq<FilePath>, bases: Seq<Arc<Raster>>) -> Map<PathKey, Arc<Raster>> {
    Map::new(
        |path: PathKey| exists|i: int| 0 <= i < paths.len() && (#[trigger] paths[i]).key() == path,
        |path: PathKey|
            bases[choose|i: int| 0 <= i < paths.len() && (#[trigger] paths[i]).key() == path],
    )
}

/// No path occurs twice.
spec fn distinct(paths: Seq<FilePath>) -> bool {
    forall|i: int, j: int|
        0 <= i < j < paths.len() ==> (#[trigger] paths[i]).key() != (#[trigger] paths[j]).key()
}

proof fn lemma_entry(paths: Seq<FilePath>, bases: Seq<Arc<Raster>>, i: int)
    requires
        distinct(paths),
        0 <= i < paths.len(),
    ensures
        as_map(paths, bases).contains_key(paths[i].key()),
        as_map(paths, bases)[paths[i].key()] == bases[i],
{
    let j = choose|j: int| 0 <= j < paths.len() && (#[trigger] paths[j]).key() == paths[i].key();
    assert(j == i);
}

proof fn lemma_no_entry(paths: Seq<FilePath>, bases: Seq<Arc<Raster>>, path: PathKey)
    requires
        forall|k: int| 0 <= k < paths.len() ==> (#[trigger] paths[k]).key() != path,
    ensures
        !as_map(paths, bases).contains_key(path),
{
}

/// The map after one more entry under a new path.
proof fn lemma_push(
    paths: Seq<FilePath>,
    bases: Seq<Arc<Raster>>,
    path: FilePath,
    base: Arc<Raster>,
)
    requires
        distinct(paths),
        paths.len() == bases.len(),
        forall|k: int| 0 <= k < paths.len() ==> (#[trigger] paths[k]).key() != path.key(),
    ensures
        distinct(paths.push(path)),
        as_map(paths.push(path), bases.push(base)) == as_map(paths, bases).insert(
            path.key(),
            base,
        ),
{
    let more = paths.push(path);
    let more_bases = bases.push(base);
    assert forall|i: int, j: int| 0 <= i < j < more.len() implies (#[trigger] more[i]).key() != (
    #[trigger] more[j]).key() by {
        if j < paths.len() {
            assert(paths[i].key() != paths[j].key());
        } else {
            assert(paths[i].key() != path.key());
        }
    }
    let before = as_map(paths, bases);
    let after = as_map(more, more_bases);
    let expected = before.insert(path.key(), base);
    assert forall|key: PathKey| #[trigger] after.contains_key(key) <==> expected.contains_key(
        key,
    ) by {
        if after.contains_key(key) {
            let i = choose|i: int| 0 <= i < more.len() && (#[trigger] more[i]).key() == key;
            if i < paths.len() {
                assert(paths[i].key() == key);
            }
        }
        if before.contains_key(key) {
            let i = choose|i: int| 0 <= i < paths.len() && (#[trigger] paths[i]).key() == key;
            assert(more[i].key() == key);
        }
        if key == path.key() {
            assert(more[paths.len() as int].key() == key);
        }
    }
    assert forall|key: PathKey| #[trigger] after.contains_key(key) implies after[key]
        == expected[key] by {
        let i = choose|i: int| 0 <= i < more.len() && (#[trigger] more[i]).key() == key;
        lemma_entry(more, more_bases, i);
        if i < paths.len() {
            assert(more[i] == paths[i]);
            lemma_entry(paths, bases, i);
        } else {
            assert(key == path.key());
        }
    }
    assert(after =~= expected);
}

impl View for Cache {
    type V = Map<PathKey, Arc<Raster>>;

    closed spec fn view(&self) -> Map<PathKey, Arc<Raster>> {
        as_map(self.paths@, self.bases@)
    }
}

impl Cache {
    #[verifier::type_invariant]
    closed spec fn well_formed(&self) -> bool {
        &&& self.paths.len() == self.bases.len()
        &&& distinct(self.paths@)
    }

    pub fn new() -> (r: Cache)
        ensures
            r@ == Map::<PathKey, Arc<Raster>>::empty(),
    {
        let r = Cache { paths: Vec::new(), bases: Vec::new() };
        assert(r@ =~= Map::<PathKey, Arc<Raster>>::empty());
        r
    }

    /// The number of images that are kept.
    pub fn len(&self) -> (r: usize)
        ensures
            self@.dom().finite(),
            r == self@.dom().len(),
    {
        proof {
            use_type_invariant(self);
            let keys = crate::path::keys(self.paths@);
            assert forall|i: int, j: int| 0 <= i < keys.len() && 0 <= j < keys.len() && i != j implies
                keys[i] != keys[j] by {
                if i < j {
                    assert(self.paths@[i].key() != self.paths@[j].key());
                } else {
                    assert(self.paths@[j].key() != self.paths@[i].key());
                }
            }
            keys.unique_seq_to_set();
            vstd::seq_lib::seq_to_set_is_finite(keys);
            assert forall|path: PathKey| keys.to_set().contains(path) <==> #[trigger] self@.contains_key(
                path,
            ) by {
                if keys.contains(path) {
                    let i = choose|i: int| 0 <= i < keys.len() && keys[i] == path;
                    lemma_entry(self.paths@, self.bases@, i);
                }
                if self@.contains_key(path) {
                    let i = choose|i: int|
                        0 <= i < self.paths@.len() && (#[trigger] self.paths@[i]).key() == path;
                    assert(keys[i] == path);
                }
            }
            assert(keys.to_set() =~= self@.dom());
        }
        self.paths.len()
    }

    /// The image under the path, shared.
    pub fn get(&self, path: &FilePath) -> (r: Option<Arc<Raster>>)
        ensures
            r is Some <==> self@.contains_key(path.key()),
            r matches Some(base) ==> base == self@[path.key()],
    {
        proof {
            use_type_invariant(self);
        }
        match position_of_key(&self.paths, path) {
            Some(i) => {
                proof {
                    lemma_entry(self.paths@, self.bases@, i as int);
                }
                Some(Arc::clone(&self.bases[i]))
            },
            None => {
                proof {
                    lemma_no_entry(self.paths@, self.bases@, path.key());
                }
                None
            },
        }
    }

    pub fn contains(&self, path: &FilePath) -> (r: bool)
        ensures
            r == self@.contains_key(path.key()),
    {
        self.get(path).is_some()
    }
}

impl Cache {
    /// Puts the image under the path, in place of the one that was there.
    pub fn insert(&mut self, path: FilePath, base: Arc<Raster>)
        ensures
            final(self)@ == old(self)@.insert(path.key(), base),
    {
        proof {
            use_type_invariant(&*self);
        }
        let mut whole = Cache::new();
        std::mem::swap(self, &mut whole);
        let Cache { mut paths, mut bases } = whole;
        match position_of_key(&paths, &path) {
            Some(i) => {
                let ghost before = bases@;
                bases.set(i, base);
                proof {
                    lemma_replace(paths@, before, i as int, base);
                }
            },
            None => {
                proof {
                    lemma_push(paths@, bases@, path, base);
                }
                paths.push(path);
                bases.push(base);
            },
        }
        *self = Cache { paths, bases };
    }

    /// Drops every image whose path is not among those to keep.
    pub fn retain(&mut self, keep: &Vec<FilePath>)
        ensures
            final(self)@ == old(self)@.restrict(crate::path::keys(keep@).to_set()),
    {
        proof {
            use_type_invariant(&*self);
        }
        let ghost wanted = crate::path::keys(keep@).to_set();
        let mut paths: Vec<FilePath> = Vec::new();
        let mut bases: Vec<Arc<Raster>> = Vec::new();
        let mut i: usize = 0;
        assert(as_map(paths@, bases@) =~= as_map(
            self.paths@.take(0),
            self.bases@.take(0),
        ).restrict(wanted));
        while i < self.paths.len()
            invariant
                i <= self.paths.len(),
                self.paths.len() == self.bases.len(),
                distinct(self.paths@),
                self@ == old(self)@,
                wanted == crate::path::keys(keep@).to_set(),
                paths.len() == bases.len(),
                distinct(paths@),
                as_map(paths@, bases@) == as_map(
                    self.paths@.take(i as int),
                    self.bases@.take(i as int),
                ).restrict(wanted),
            decreases self.paths.len() - i,
        {
            let ghost done = self.paths@.take(i as int);
            let ghost done_bases = self.bases@.take(i as int);
            let ghost key = self.paths@[i as int].key();
            proof {
                assert(self.paths@.take(i + 1) =~= done.push(self.paths@[i as int]));
                assert(self.bases@.take(i + 1) =~= done_bases.push(self.bases@[i as int]));
                assert forall|k: int| 0 <= k < done.len() implies (#[trigger] done[k]).key()
                    != key by {
                    assert(self.paths@[k].key() != self.paths@[i as int].key());
                }
                assert(distinct(done)) by {
                    assert forall|a: int, b: int| 0 <= a < b < done.len() implies (
                    #[trigger] done[a]).key() != (#[trigger] done[b]).key() by {
                        assert(self.paths@[a].key() != self.paths@[b].key());
                    }
                }
                lemma_push(done, done_bases, self.paths@[i as int], self.bases@[i as int]);
                lemma_no_entry(done, done_bases, key);
            }
            match position_of_key(keep, &self.paths[i]) {
                Some(j) => {
                    let path = self.paths[i].clone();
                    let base = Arc::clone(&self.bases[i]);
                    proof {
                        assert(crate::path::keys(keep@)[j as int] == key);
                        assert(wanted.contains(key));
                        assert forall|k: int| 0 <= k < paths.len() implies (#[trigger] paths@[k]).key()
                            != path.key() by {
                            lemma_entry(paths@, bases@, k);
                        }
                        lemma_push(paths@, bases@, path, base);
                        assert(as_map(done, done_bases).insert(key, base).restrict(wanted)
                            =~= as_map(done, done_bases).restrict(wanted).insert(key, base));
                    }
                    paths.push(path);
                    bases.push(base);
                },
                None => {
                    proof {
                        if wanted.contains(key) {
                            let j = choose|j: int|
                                0 <= j < crate::path::keys(keep@).len() && crate::path::keys(
                                    keep@,
                                )[j] == key;
                            assert(keep@[j].key() == key);
                        }
                        assert(as_map(done, done_bases).insert(
                            key,
                            self.bases@[i as int],
                        ).restrict(wanted) =~= as_map(done, done_bases).restrict(wanted));
                    }
                },
            }
            i = i + 1;
        }
        proof {
            assert(self.paths@.take(i as int) =~= self.paths@);
            assert(self.bases@.take(i as int) =~= self.bases@);
        }
        *self = Cache { paths, bases };
    }
}

/// The map after replacing the image at a position.
proof fn lemma_replace(
    paths: Seq<FilePath>,
    bases: Seq<Arc<Raster>>,
    i: int,
    base: Arc<Raster>,
)
    requires
        distinct(paths),
        paths.len() == bases.len(),
        0 <= i < paths.len(),
    ensures
        as_map(paths, bases.update(i, base)) == as_map(paths, bases).insert(paths[i].key(), base),
{
    let before = as_map(paths, bases);
    let after = as_map(paths, bases.update(i, base));
    let expected = before.insert(paths[i].key(), base);
    lemma_entry(paths, bases, i);
    assert forall|key: PathKey| #[trigger] after.contains_key(key) implies after[key]
        == expected[key] by {
        let j = choose|j: int| 0 <= j < paths.len() && (#[trigger] paths[j]).key() == key;
        lemma_entry(paths, bases, j);
        lemma_entry(paths, bases.update(i, base), j);
        if j < i {
            assert(paths[j].key() != paths[i].key());
        }
        if i < j {
            assert(paths[i].key() != paths[j].key());
        }
    }
    assert(after =~= expected);
}

/// Keeping only certain paths bounds what is kept by their number.
pub proof fn law_retaining_bounds_the_cache(
    images: Map<PathKey, Arc<Raster>>,
    keep: Seq<PathKey>,
)
    ensures
        images.restrict(keep.to_set()).dom().finite(),
        images.restrict(keep.to_set()).dom().len() <= keep.len(),
        forall|path: PathKey| #[trigger]
            images.restrict(keep.to_set()).contains_key(path) ==> keep.contains(path)
                && images.restrict(keep.to_set())[path] == images[path],
{
    let rest = images.restrict(keep.to_set()).dom();
    vstd::seq_lib::seq_to_set_is_finite(keep);
    vstd::set_lib::lemma_len_subset(rest, keep.to_set());
    keep.lemma_cardinality_of_set();
}

/// An image that was put under a path is found there, under every spelling of it; what was
/// found under other paths is still found.
pub proof fn law_inserted_images_are_found(
    cache: &mut Cache,
    path: FilePath,
    base: Arc<Raster>,
    other: &FilePath,
    before: Option<Arc<Raster>>,
    after: Option<Arc<Raster>>,
)
    requires
        call_ensures(Cache::get, (&*old(cache), other), before),
        call_ensures(Cache::insert, (cache, path, base), ()),
        call_ensures(Cache::get, (&*final(cache), other), after),
    ensures
        crate::path::key_of(other@) == crate::path::key_of(path@) ==> after == Some(base),
        crate::path::key_of(other@) != crate::path::key_of(path@) ==> after == before,
{
}

/// After dropping all but certain paths, those are found as before, and no others.
pub proof fn law_retained_images_are_found(
    cache: &mut Cache,
    keep: &Vec<FilePath>,
    path: &FilePath,
    before: Option<Arc<Raster>>,
    after: Option<Arc<Raster>>,
)
    requires
        call_ensures(Cache::get, (&*old(cache), path), before),
        call_ensures(Cache::retain, (cache, keep), ()),
        call_ensures(Cache::get, (&*final(cache), path), after),
    ensures
        (exists|k: int|
            0 <= k < keep@.len() && crate::path::key_of((#[trigger] keep@[k])@)
                == crate::path::key_of(path@)) ==> after == before,
        (forall|k: int|
            0 <= k < keep@.len() ==> crate::path::key_of((#[trigger] keep@[k])@)
                != crate::path::key_of(path@)) ==> after is None,
{
    let wanted = crate::path::keys(keep@);
    if exists|k: int|
        0 <= k < keep@.len() && crate::path::key_of((#[trigger] keep@[k])@) == crate::path::key_of(
            path@,
        ) {
        let k = choose|k: int|
            0 <= k < keep@.len() && crate::path::key_of((#[trigger] keep@[k])@)
                == crate::path::key_of(path@);
        assert(wanted[k] == path.key());
        assert(wanted.to_set().contains(path.key()));
    }
    if wanted.to_set().contains(path.key()) {
        let k = choose|k: int| 0 <= k < wanted.len() && wanted[k] == path.key();
        assert(crate::path::key_of(keep@[k]@) == path.key());
    }
}

/// A new cache holds nothing; it contains a path exactly if it has an image for it; and its
/// length is the number of paths that it has one for.
pub proof fn law_caches_tell_what_they_hold(
    new: Cache,
    path: &FilePath,
    none: Option<Arc<Raster>>,
    cache: &Cache,
    image: Option<Arc<Raster>>,
    contains: bool,
    len: usize,
)
    requires
        call_ensures(Cache::new, (), new),
        call_ensures(Cache::get, (&new, path), none),
        call_ensures(Cache::get, (cache, path), image),
        call_ensures(Cache::contains, (cache, path), contains),
        call_ensures(Cache::len, (cache,), len),
    ensures
        none is None,
        contains <==> image is Some,
        image is Some <==> cache@.contains_key(crate::path::key_of(path@)),
        image is Some ==> image->0 == cache@[crate::path::key_of(path@)],
        len == cache@.dom().len(),
{
}

} // verus!
