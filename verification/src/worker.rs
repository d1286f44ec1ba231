//! What the two background workers decide: which images to decode, and what to put on
//! screen.

use crate::cache::Cache;
use crate::caption::failure_message;
use crate::imageset::Cursor;
use crate::path::{FilePath, PathKey};
use crate::raster::{rotate_turns, Picture, Raster};
use std::sync::Arc;
use vstd::prelude::*;

verus! {

/// Both sides of an image on screen are at most this many pixels.
pub const MAX_DISPLAY_DIM: u32 = 4096;

/// Caches a freshly decoded image of `path`, in place of any that is there, and hands it out.
/// A failure is handed on and leaves the cache as it is.
pub fn store_base<E>(
    cache: &mut Cache,
    path: &FilePath,
    decoded: Result<Raster, E>,
) -> (r: Result<Arc<Raster>, E>)
    ensures
        match decoded {
            Ok(img) => {
                &&& r == Ok::<Arc<Raster>, E>(Arc::new(img))
                &&& final(cache)@ == old(cache)@.insert(path.key(), Arc::new(img))
            },
            Err(e) => {
                &&& r == Err::<Arc<Raster>, E>(e)
                &&& final(cache)@ == old(cache)@
            },
        },
{
    match decoded {
        Ok(img) => {
            let base = Arc::new(img);
            cache.insert(path.clone(), Arc::clone(&base));
            Ok(base)
        },
        Err(e) => Err(e),
    }
}

/// Obtains the upright image of `path`: the cached one, shared, on a hit; else it is
/// decoded, cached and handed out. A failure is handed on and leaves the cache as it is.
pub fn obtain_base<E>(
    cache: &mut Cache,
    path: &FilePath,
    decode: impl FnOnce(&FilePath) -> Result<Raster, E>,
) -> (r: Result<Arc<Raster>, E>)
    requires
        !old(cache)@.contains_key(path.key()) ==> call_requires(decode, (path,)),
    ensures
        old(cache)@.contains_key(path.key()) ==> {
            &&& r == Ok::<Arc<Raster>, E>(old(cache)@[path.key()])
            &&& final(cache)@ == old(cache)@
        },
        !old(cache)@.contains_key(path.key()) ==> match r {
            Ok(base) => {
                &&& call_ensures(decode, (path,), Ok::<Raster, E>(*base))
                &&& final(cache)@ == old(cache)@.insert(path.key(), base)
            },
            Err(e) => {
                &&& call_ensures(decode, (path,), Err::<Raster, E>(e))
                &&& final(cache)@ == old(cache)@
            },
        },
{
    match cache.get(path) {
        Some(hit) => Ok(hit),
        None => store_base(cache, path, decode(path)),
    }
}

/// A pass over the paths to keep decoded.
#[derive(Debug)]
pub struct Prefetch {
    keep: Vec<FilePath>,
    next: usize,
}

impl Prefetch {
    /// The paths to keep.
    pub closed spec fn keep(&self) -> Seq<Seq<u8>> {
        crate::path::views(self.keep@)
    }

    /// What the paths to keep come down to.
    pub open spec fn keys(&self) -> Seq<PathKey> {
        crate::path::keys_of(self.keep())
    }

    /// How many of them are dealt with.
    pub closed spec fn next(&self) -> int {
        self.next as int
    }

    #[verifier::type_invariant]
    closed spec fn well_formed(&self) -> bool {
        self.next <= self.keep.len()
    }

    pub fn new(keep: Vec<FilePath>) -> (r: Prefetch)
        ensures
            r.keep() == crate::path::views(keep@),
            r.next() == 0,
    {
        Prefetch { keep, next: 0 }
    }

    /// The next path that is to be decoded: the first one not dealt with yet that is not in
    /// the cache. `None` if there is none left.
    pub fn next_missing(&mut self, cache: &Cache) -> (r: Option<FilePath>)
        ensures
            final(self).keep() == old(self).keep(),
            0 <= old(self).next() <= final(self).next() <= old(self).keep().len(),
            match r {
                Some(path) => {
                    let at = final(self).next() - 1;
                    &&& old(self).next() <= at
                    &&& old(self).keep()[at] == path@
                    &&& !cache@.contains_key(path.key())
                    &&& forall|k: int|
                        old(self).next() <= k < at ==> cache@.contains_key(
                            #[trigger] old(self).keys()[k],
                        )
                },
                None => {
                    &&& final(self).next() == old(self).keep().len()
                    &&& forall|k: int|
                        old(self).next() <= k < old(self).keep().len() ==> cache@.contains_key(
                            #[trigger] old(self).keys()[k],
                        )
                },
            },
    {
        proof {
            use_type_invariant(&*self);
        }
        let from: usize = self.next;
        let mut i: usize = from;
        while i < self.keep.len()
            invariant
                from <= i <= self.keep.len(),
                *self == *old(self),
                from == self.next,
                forall|k: int| from <= k < i ==> cache@.contains_key(#[trigger] self.keys()[k]),
            decreases self.keep.len() - i,
        {
            if !cache.contains(&self.keep[i]) {
                let path = self.keep[i].clone();
                self.next = i + 1;
                return Some(path);
            }
            i = i + 1;
        }
        self.next = i;
        None
    }

    /// Ends the pass: drops from the cache whatever is not to be kept.
    pub fn finish(self, cache: &mut Cache)
        ensures
            final(cache)@ == old(cache)@.restrict(self.keys().to_set()),
    {
        cache.retain(&self.keep);
    }
}

/// A frame ready for the screen: the displayed pixels and what is known of them.
#[derive(Debug)]
pub struct DecodedFrame {
    pub image: Arc<Raster>,
    /// The new caption, or `None` to keep the one there is.
    pub caption: Option<String>,
    pub nat_w: u32,
    pub nat_h: u32,
    pub rotation_deg: i32,
}

/// Something to put on screen.
#[derive(Debug)]
pub enum Update {
    /// Show the frame and clear the status line.
    Frame(DecodedFrame),
    /// Say this in the status line.
    Status(String),
}

/// What became of the file that a batch of jobs wants shown.
#[derive(Debug)]
pub enum Shown {
    /// The batch wants none shown.
    Nothing,
    /// Its upright image was obtained.
    Base { path: FilePath, base: Arc<Raster>, caption: Option<String> },
    /// It could not be decoded.
    Failed { name: String, error: String },
}

/// The image on screen and how far it is turned.
#[verifier::ext_equal]
pub struct Screen {
    pub current: Option<(Seq<u8>, Picture)>,
    pub turns: int,
}

impl Screen {
    pub open spec fn valid(self) -> bool {
        &&& 0 <= self.turns < 4
        &&& self.current matches Some((_, base)) ==> base.valid()
    }

    /// The screen after a batch of jobs: a fresh image starts upright, then the net turns of
    /// the batch apply to whatever image there is; after a failure everything stays.
    pub open spec fn after(self, shown: Shown, delta: int) -> Screen {
        match shown {
            Shown::Failed { .. } => self,
            Shown::Base { path, base, .. } => Screen {
                current: Some((path@, base@)),
                turns: delta % 4,
            },
            Shown::Nothing => if self.current is Some {
                Screen { current: self.current, turns: (self.turns + delta) % 4 }
            } else {
                self
            },
        }
    }

    /// The frame shows the image at its turns.
    pub open spec fn shown_in(self, frame: DecodedFrame) -> bool {
        &&& self.current matches Some((_, base)) && frame.image@ == crate::raster::turned(
            base,
            self.turns,
        )
        &&& frame.nat_w == frame.image@.width
        &&& frame.nat_h == frame.image@.height
        &&& frame.rotation_deg == 90 * self.turns
    }
}

/// What is put on screen after a batch: for a fresh image a frame of it upright, with its
/// caption; then, if the batch turns an image, a frame that keeps the caption; after a
/// failure only a message.
pub open spec fn announces(
    before: Screen,
    shown: Shown,
    delta: int,
    updates: Seq<Update>,
) -> bool {
    let after = before.after(shown, delta);
    match shown {
        Shown::Failed { name, error } => {
            &&& updates.len() == 1
            &&& updates[0] matches Update::Status(text) && text@ == crate::caption::failure(
                name@,
                error@,
            )
        },
        Shown::Base { path, base, caption } => {
            &&& updates.len() == if delta == 0 {
                1int
            } else {
                2
            }
            &&& updates[0] matches Update::Frame(frame) && frame.caption == caption
                && before.after(shown, 0).shown_in(frame)
            &&& delta != 0 ==> (updates[1] matches Update::Frame(frame) && frame.caption is None
                && after.shown_in(frame))
        },
        Shown::Nothing => if delta != 0 && before.current is Some {
            &&& updates.len() == 1
            &&& updates[0] matches Update::Frame(frame) && frame.caption is None
                && after.shown_in(frame)
        } else {
            updates.len() == 0
        },
    }
}

/// The foreground worker's memory: the upright image on screen and how far it is turned, so
/// that turning it needs no decoding.
#[derive(Debug)]
pub struct DecodeWorker {
    current: Option<(FilePath, Arc<Raster>)>,
    turns: i32,
}

impl View for DecodeWorker {
    type V = Screen;

    closed spec fn view(&self) -> Screen {
        Screen {
            current: match self.current {
                Some((path, base)) => Some((path@, base@)),
                None => None,
            },
            turns: self.turns as int,
        }
    }
}

impl DecodeWorker {
    #[verifier::type_invariant]
    closed spec fn well_formed(&self) -> bool {
        0 <= self.turns < 4
    }

    pub fn new() -> (r: DecodeWorker)
        ensures
            r@ == (Screen { current: None, turns: 0 }),
    {
        DecodeWorker { current: None, turns: 0 }
    }

    /// The frame of the image at its turns. `None` without an image.
    fn frame(&self, caption: Option<String>) -> (r: Option<DecodedFrame>)
        ensures
            r is Some <==> self@.current is Some,
            r matches Some(frame) ==> self@.shown_in(frame) && frame.caption == caption,
    {
        proof {
            use_type_invariant(self);
        }
        match &self.current {
            None => None,
            Some((_, base)) => {
                let image = rotate_turns(base, self.turns);
                let nat_w: u32 = image.width();
                let nat_h: u32 = image.height();
                Some(DecodedFrame { image, caption, nat_w, nat_h, rotation_deg: 90 * self.turns })
            },
        }
    }

    /// Deals with a batch of jobs: what became of the file it wants shown, and the net turns
    /// after it. Hands out what is to be put on screen, in order.
    pub fn step(&mut self, shown: Shown, delta: i32) -> (updates: Vec<Update>)
        ensures
            final(self)@ == old(self)@.after(shown, delta as int),
            announces(old(self)@, shown, delta as int, updates@),
    {
        proof {
            use_type_invariant(&*self);
        }
        let mut updates: Vec<Update> = Vec::new();
        match shown {
            Shown::Failed { name, error } => {
                updates.push(
                    Update::Status(failure_message(name.as_str(), error.as_str())),
                );
                return updates;
            },
            Shown::Base { path, base, caption } => {
                *self = DecodeWorker { current: Some((path, base)), turns: 0 };
                if let Some(frame) = self.frame(caption) {
                    updates.push(Update::Frame(frame));
                }
            },
            Shown::Nothing => {},
        }
        if delta != 0 && self.current.is_some() {
            let turns: i64 = (self.turns as i64 + delta as i64 + 0x1_0000_0000) % 4;
            self.turns = turns as i32;
            if let Some(frame) = self.frame(None) {
                updates.push(Update::Frame(frame));
            }
        }
        updates
    }
}

/// After a miss was decoded, the path is a hit with that very image, and no other path
/// changed.
pub proof fn law_decoded_images_are_hits(
    images: Map<PathKey, Arc<Raster>>,
    path: PathKey,
    base: Arc<Raster>,
    other: PathKey,
)
    requires
        other != path,
    ensures
        images.insert(path, base).contains_key(path),
        images.insert(path, base)[path] == base,
        images.insert(path, base).contains_key(other) <==> images.contains_key(other),
        images.contains_key(other) ==> images.insert(path, base)[other] == images[other],
{
}

/// After a pass over the images around the cursor, no more than three are kept.
pub proof fn law_three_images_are_kept_at_most(
    images: Map<PathKey, Arc<Raster>>,
    c: Cursor,
)
    ensures
        ({
            let kept = images.restrict(crate::path::keys_of(crate::jobs::around(c)).to_set());
            kept.dom().finite() && kept.dom().len() <= 3
        }),
{
    crate::cache::law_retaining_bounds_the_cache(
        images,
        crate::path::keys_of(crate::jobs::around(c)),
    );
}

/// The images after a pass over the paths to keep: each path that is missing when its turn
/// comes is decoded, and `tries` says what that gives at each position, if anything.
pub open spec fn prefetched(
    images: Map<PathKey, Arc<Raster>>,
    keep: Seq<PathKey>,
    tries: Seq<Option<Arc<Raster>>>,
) -> Map<PathKey, Arc<Raster>>
    decreases keep.len(),
{
    if keep.len() == 0 {
        images
    } else {
        let before = prefetched(images, keep.drop_last(), tries);
        match tries[keep.len() - 1] {
            Some(base) => if before.contains_key(keep.last()) {
                before
            } else {
                before.insert(keep.last(), base)
            },
            None => before,
        }
    }
}

proof fn lemma_hits_change_nothing(
    images: Map<PathKey, Arc<Raster>>,
    keep: Seq<PathKey>,
    tries: Seq<Option<Arc<Raster>>>,
    from: int,
    to: int,
)
    requires
        0 <= from <= to <= keep.len(),
        forall|k: int|
            from <= k < to ==> prefetched(images, keep.take(from), tries).contains_key(
                #[trigger] keep[k],
            ),
    ensures
        prefetched(images, keep.take(to), tries) == prefetched(images, keep.take(from), tries),
    decreases to - from,
{
    if from < to {
        lemma_hits_change_nothing(images, keep, tries, from, to - 1);
        assert(keep.take(to).drop_last() =~= keep.take(to - 1));
        assert(keep.take(to).last() == keep[to - 1]);
    }
}

/// A pass goes on as stated: with the images after the first `from` paths, going to the next
/// missing one at `at`, and storing it if it decodes, gives the images after the paths up to
/// it; and if none is missing, the pass is over.
pub proof fn law_prefetch_goes_on(
    images: Map<PathKey, Arc<Raster>>,
    keep: Seq<PathKey>,
    tries: Seq<Option<Arc<Raster>>>,
    from: int,
    at: int,
)
    requires
        0 <= from <= at <= keep.len(),
        forall|k: int|
            from <= k < at ==> prefetched(images, keep.take(from), tries).contains_key(
                #[trigger] keep[k],
            ),
        at < keep.len() ==> !prefetched(images, keep.take(from), tries).contains_key(keep[at]),
    ensures
        at < keep.len() ==> prefetched(images, keep.take(at + 1), tries) == match tries[at] {
            Some(base) => prefetched(images, keep.take(from), tries).insert(keep[at], base),
            None => prefetched(images, keep.take(from), tries),
        },
        at == keep.len() ==> prefetched(images, keep, tries) == prefetched(
            images,
            keep.take(from),
            tries,
        ),
{
    lemma_hits_change_nothing(images, keep, tries, from, at);
    if at < keep.len() {
        assert(keep.take(at + 1).drop_last() =~= keep.take(at));
        assert(keep.take(at + 1).last() == keep[at]);
    } else {
        assert(keep.take(at) =~= keep);
    }
}

/// The path is to be kept, and decoding it worked at some point of the pass.
pub open spec fn decoded_in_pass(
    keep: Seq<PathKey>,
    tries: Seq<Option<Arc<Raster>>>,
    path: PathKey,
) -> bool {
    exists|k: int| 0 <= k < keep.len() && #[trigger] keep[k] == path && tries[k] is Some
}

proof fn lemma_prefetched(
    images: Map<PathKey, Arc<Raster>>,
    keep: Seq<PathKey>,
    tries: Seq<Option<Arc<Raster>>>,
    path: PathKey,
)
    ensures
        ({
            let after = prefetched(images, keep, tries);
            &&& after.contains_key(path) <==> images.contains_key(path) || decoded_in_pass(
                keep,
                tries,
                path,
            )
            &&& images.contains_key(path) ==> after[path] == images[path]
            &&& after.contains_key(path) && !images.contains_key(path) ==> exists|k: int|
                0 <= k < keep.len() && #[trigger] keep[k] == path && tries[k] == Some(after[path])
        }),
    decreases keep.len(),
{
    if keep.len() > 0 {
        let rest = keep.drop_last();
        lemma_prefetched(images, rest, tries, path);
        let before = prefetched(images, rest, tries);
        let after = prefetched(images, keep, tries);
        let last = keep.len() - 1;
        assert(keep[last] == keep.last());
        if decoded_in_pass(rest, tries, path) {
            let k = choose|k: int|
                0 <= k < rest.len() && #[trigger] rest[k] == path && tries[k] is Some;
            assert(keep[k] == path);
        }
        if decoded_in_pass(keep, tries, path) && !decoded_in_pass(rest, tries, path) {
            let k = choose|k: int|
                0 <= k < keep.len() && #[trigger] keep[k] == path && tries[k] is Some;
            if k < last {
                assert(rest[k] == path);
            }
        }
        if before.contains_key(path) && !images.contains_key(path) {
            let k = choose|k: int|
                0 <= k < rest.len() && #[trigger] rest[k] == path && tries[k] == Some(
                    before[path],
                );
            assert(keep[k] == path);
        }
    }
}

/// After a whole pass the cache holds exactly the paths to keep that were cached or decoded;
/// those cached before are unchanged, and the others are what decoding them gave.
pub proof fn law_prefetch_fills_the_cache(
    images: Map<PathKey, Arc<Raster>>,
    keep: Seq<PathKey>,
    tries: Seq<Option<Arc<Raster>>>,
    path: PathKey,
)
    ensures
        ({
            let after = prefetched(images, keep, tries).restrict(keep.to_set());
            &&& after.contains_key(path) <==> keep.contains(path) && (images.contains_key(path)
                || decoded_in_pass(keep, tries, path))
            &&& keep.contains(path) && images.contains_key(path) ==> after[path] == images[path]
            &&& after.contains_key(path) && !images.contains_key(path) ==> exists|k: int|
                0 <= k < keep.len() && #[trigger] keep[k] == path && tries[k] == Some(after[path])
        }),
{
    lemma_prefetched(images, keep, tries, path);
}

/// A screen stays valid whatever happens.
pub proof fn law_screen_stays_valid(s: Screen, shown: Shown, delta: int)
    requires
        s.valid(),
        shown matches Shown::Base { base, .. } ==> base@.valid(),
    ensures
        s.after(shown, delta).valid(),
{
}

/// A burst may be dealt with in parts: turns that come in a later batch add to those of the
/// batch before, and a later image makes the earlier batch irrelevant.
pub proof fn law_batches_may_be_split(s: Screen, first: Shown, a: int, second: Shown, b: int)
    requires
        s.valid(),
    ensures
        !(first is Failed) ==> s.after(first, a).after(Shown::Nothing, b) == s.after(first, a + b),
        second is Base ==> s.after(first, a).after(second, b) == s.after(second, b),
{
    if first is Base {
        lemma_mod_sum(0, a, b);
    }
    if first is Nothing {
        lemma_mod_sum(s.turns, a, b);
    }
}

proof fn lemma_mod_sum(t: int, a: int, b: int)
    ensures
        ((t + a) % 4 + b) % 4 == (t + (a + b)) % 4,
{
}

/// A file that cannot be shown leaves the image on screen and its turns alone.
pub proof fn law_failure_leaves_the_screen(s: Screen, name: String, error: String, delta: int)
    ensures
        s.after(Shown::Failed { name, error }, delta) == s,
{
}

/// Turns never compound: a frame is the upright image turned by all turns since it was
/// shown, as if made in one go.
pub proof fn law_frames_derive_from_the_base(s: Screen, delta: int, frame: DecodedFrame)
    requires
        s.valid(),
        s.after(Shown::Nothing, delta).shown_in(frame),
    ensures
        s.current matches Some((_, base)) && frame.image@ == crate::raster::turned(
            base,
            s.turns + delta,
        ) && frame.image@ == crate::raster::turned(
            crate::raster::turned(base, s.turns),
            delta,
        ),
{
    if let Some((_, base)) = s.current {
        crate::raster::law_turns_add_up(base, s.turns, delta);
    }
}

/// The degrees in a frame say by how much its image is turned, and its natural size is that
/// of the upright image, with width and height exchanged after an odd number of turns.
pub proof fn law_frames_describe_their_image(s: Screen, frame: DecodedFrame)
    requires
        s.valid(),
        s.shown_in(frame),
    ensures
        0 <= frame.rotation_deg < 360,
        s.current matches Some((_, base)) && if frame.rotation_deg == 90 || frame.rotation_deg
            == 270 {
            frame.nat_w == base.height && frame.nat_h == base.width
        } else {
            frame.nat_w == base.width && frame.nat_h == base.height
        },
{
}

/// A freshly decoded image is handed out and found under its path from then on; a failure is
/// handed on. Other paths are as before, and after a failure all are.
pub proof fn law_decoded_images_are_stored<E>(
    cache: &mut Cache,
    path: &FilePath,
    decoded: Result<Raster, E>,
    r: Result<Arc<Raster>, E>,
    other: &FilePath,
    before: Option<Arc<Raster>>,
    after: Option<Arc<Raster>>,
)
    requires
        call_ensures(Cache::get, (&*old(cache), other), before),
        call_ensures(store_base::<E>, (cache, path, decoded), r),
        call_ensures(Cache::get, (&*final(cache), other), after),
    ensures
        decoded matches Err(e) ==> r == Err::<Arc<Raster>, E>(e) && after == before,
        decoded matches Ok(img) ==> r is Ok && *r->Ok_0 == img && if crate::path::key_of(other@)
            == crate::path::key_of(path@) {
            after == Some(r->Ok_0)
        } else {
            after == before
        },
{
}

/// An image that is in the cache is obtained from there, as it is, and nothing changes. Any
/// other is what decoding its path gives, and is in the cache from then on if that worked.
pub proof fn law_images_are_obtained<E, F: FnOnce(&FilePath) -> Result<Raster, E>>(
    cache: &mut Cache,
    path: &FilePath,
    decode: F,
    r: Result<Arc<Raster>, E>,
    cached: Option<Arc<Raster>>,
    other: &FilePath,
    before: Option<Arc<Raster>>,
    after: Option<Arc<Raster>>,
)
    requires
        call_ensures(Cache::get, (&*old(cache), path), cached),
        call_ensures(Cache::get, (&*old(cache), other), before),
        call_ensures(obtain_base, (cache, path, decode), r),
        call_ensures(Cache::get, (&*final(cache), other), after),
    ensures
        cached matches Some(base) ==> r == Ok::<Arc<Raster>, E>(base) && after == before,
        cached is None ==> match r {
            Ok(base) => call_ensures(decode, (path,), Ok::<Raster, E>(*base)) && if crate::path::key_of(
                other@,
            ) == crate::path::key_of(path@) {
                after == Some(base)
            } else {
                after == before
            },
            Err(e) => call_ensures(decode, (path,), Err::<Raster, E>(e)) && after == before,
        },
{
}

/// A pass starts with the given paths, none dealt with. Each time it hands out the first one
/// not dealt with that is not in the cache, until there is none.
pub proof fn law_pass_hands_out_what_is_missing(
    keep: Vec<FilePath>,
    fresh: Prefetch,
    pass: &mut Prefetch,
    cache: &Cache,
    r: Option<FilePath>,
    k: int,
    path: &FilePath,
    cached: bool,
)
    requires
        call_ensures(Prefetch::new, (keep,), fresh),
        call_ensures(Prefetch::next_missing, (pass, cache), r),
        old(pass).next() <= k < old(pass).keep().len(),
        path@ == old(pass).keep()[k],
        call_ensures(Cache::contains, (cache, path), cached),
    ensures
        fresh.next() == 0,
        fresh.keep().len() == keep@.len(),
        0 <= k < keep@.len() ==> fresh.keep()[k] == keep@[k]@,
        final(pass).keep() == old(pass).keep(),
        r is None ==> cached && final(pass).next() == old(pass).keep().len(),
        r matches Some(missing) ==> {
            let at = final(pass).next() - 1;
            &&& old(pass).next() <= at < old(pass).keep().len()
            &&& missing@ == old(pass).keep()[at]
            &&& k < at ==> cached
            &&& k == at ==> !cached
        },
{
    assert(old(pass).keys()[k] == path.key());
}

/// When a pass ends, the cache has the images of the paths to keep as before, and no others.
pub proof fn law_pass_drops_the_rest(
    pass: Prefetch,
    cache: &mut Cache,
    path: &FilePath,
    before: Option<Arc<Raster>>,
    after: Option<Arc<Raster>>,
)
    requires
        call_ensures(Cache::get, (&*old(cache), path), before),
        call_ensures(Prefetch::finish, (pass, cache), ()),
        call_ensures(Cache::get, (&*final(cache), path), after),
    ensures
        (exists|k: int|
            0 <= k < pass.keep().len() && crate::path::key_of(#[trigger] pass.keep()[k])
                == crate::path::key_of(path@)) ==> after == before,
        (forall|k: int|
            0 <= k < pass.keep().len() ==> crate::path::key_of(#[trigger] pass.keep()[k])
                != crate::path::key_of(path@)) ==> after is None,
{
    let wanted = pass.keys();
    if exists|k: int|
        0 <= k < pass.keep().len() && crate::path::key_of(#[trigger] pass.keep()[k])
            == crate::path::key_of(path@) {
        let k = choose|k: int|
            0 <= k < pass.keep().len() && crate::path::key_of(#[trigger] pass.keep()[k])
                == crate::path::key_of(path@);
        assert(wanted[k] == path.key());
        assert(wanted.to_set().contains(path.key()));
    }
    if wanted.to_set().contains(path.key()) {
        let k = choose|k: int| 0 <= k < wanted.len() && wanted[k] == path.key();
        assert(crate::path::key_of(pass.keep()[k]) == path.key());
    }
}

/// The frame holds the image after so many quarter turns clockwise: its size, the degrees, and
/// each pixel from where the turns say.
pub open spec fn frame_of(
    frame: DecodedFrame,
    base: Picture,
    turns: int,
    x: int,
    y: int,
    channel: int,
) -> bool {
    let image = frame.image@;
    let (w, h, c) = (base.width as int, base.height as int, base.channels as int);
    let (sx, sy) = crate::raster::turned_source(turns, w, h, x, y);
    &&& image.channels == base.channels
    &&& (image.width as int, image.height as int) == if turns % 2 == 0 {
        (w, h)
    } else {
        (h, w)
    }
    &&& frame.nat_w == image.width
    &&& frame.nat_h == image.height
    &&& frame.rotation_deg == 90 * (turns % 4)
    &&& 0 <= x < image.width && 0 <= y < image.height && 0 <= channel < c
        ==> crate::raster::pixel_byte(image.bytes, image.width as int, c, x, y, channel)
        == crate::raster::pixel_byte(base.bytes, w, c, sx, sy, channel)
}

proof fn lemma_frame_of(
    s: Screen,
    frame: DecodedFrame,
    base: Picture,
    x: int,
    y: int,
    channel: int,
)
    requires
        s.shown_in(frame),
        s.current matches Some((_, b)) && b == base,
        0 <= s.turns < 4,
        base.valid(),
    ensures
        frame_of(frame, base, s.turns, x, y, channel),
{
    crate::raster::law_odd_turns_swap_dimensions(base, s.turns);
    let image = frame.image@;
    if 0 <= x < image.width && 0 <= y < image.height && 0 <= channel < base.channels {
        crate::raster::law_turned_pixels(base, s.turns, x, y, channel);
    }
}

/// A file that was obtained is put on screen upright, with exactly the caption that came with
/// it, whatever turns come along. The turns then give a second frame that keeps the caption.
/// The worker goes on from that image and those turns.
pub proof fn law_new_image_is_shown_with_its_caption(
    worker: &mut DecodeWorker,
    path: FilePath,
    base: Arc<Raster>,
    caption: Option<String>,
    delta: i32,
    updates: Vec<Update>,
    x: int,
    y: int,
    channel: int,
)
    requires
        call_ensures(
            DecodeWorker::step,
            (worker, Shown::Base { path, base, caption }, delta),
            updates,
        ),
        base@.valid(),
    ensures
        updates@.len() == if delta == 0 {
            1int
        } else {
            2
        },
        updates@[0] matches Update::Frame(frame) && frame.caption == caption && frame_of(
            frame,
            base@,
            0,
            x,
            y,
            channel,
        ),
        delta != 0 ==> (updates@[1] matches Update::Frame(frame) && frame.caption is None
            && frame_of(frame, base@, delta as int % 4, x, y, channel)),
        final(worker)@.current == Some((path@, base@)),
        final(worker)@.turns == delta as int % 4,
{
    let shown = Shown::Base { path, base, caption };
    let before = old(worker)@;
    if let Update::Frame(frame) = updates@[0] {
        lemma_frame_of(before.after(shown, 0), frame, base@, x, y, channel);
    }
    if delta != 0 {
        if let Update::Frame(frame) = updates@[1] {
            lemma_frame_of(before.after(shown, delta as int), frame, base@, x, y, channel);
        }
    }
}

/// Turns without a new file turn the image on screen further, in one frame that keeps the
/// caption; without a turn, or without an image, nothing is put on screen and nothing changes.
pub proof fn law_turns_go_on_from_the_screen(
    worker: &mut DecodeWorker,
    delta: i32,
    updates: Vec<Update>,
    x: int,
    y: int,
    channel: int,
)
    requires
        call_ensures(DecodeWorker::step, (worker, Shown::Nothing, delta), updates),
        old(worker)@.valid(),
    ensures
        delta == 0 || old(worker)@.current is None ==> updates@.len() == 0 && final(worker)@
            == old(worker)@,
        delta != 0 ==> (old(worker)@.current matches Some((path, base)) ==> {
            let turns = (old(worker)@.turns + delta) % 4;
            &&& updates@.len() == 1
            &&& updates@[0] matches Update::Frame(frame) && frame.caption is None && frame_of(
                frame,
                base,
                turns,
                x,
                y,
                channel,
            )
            &&& final(worker)@.current == Some((path, base))
            &&& final(worker)@.turns == turns
        }),
{
    let before = old(worker)@;
    if delta != 0 {
        if let Some((path, base)) = before.current {
            if let Update::Frame(frame) = updates@[0] {
                lemma_frame_of(
                    before.after(Shown::Nothing, delta as int),
                    frame,
                    base,
                    x,
                    y,
                    channel,
                );
            }
        }
    }
}

/// A file that could not be decoded gives one message, which names it and says why, and leaves
/// the image on screen and its turns alone.
pub proof fn law_failure_is_announced(
    worker: &mut DecodeWorker,
    name: String,
    error: String,
    delta: i32,
    updates: Vec<Update>,
)
    requires
        call_ensures(
            DecodeWorker::step,
            (worker, Shown::Failed { name, error }, delta),
            updates,
        ),
    ensures
        updates@.len() == 1,
        updates@[0] matches Update::Status(text) && text@ == crate::caption::failure_text(
            name@,
            error@,
        ),
        final(worker)@ == old(worker)@,
{
    crate::caption::lemma_failure(name@, error@);
}

/// A new worker has no image on screen and no turns.
pub proof fn law_new_worker_shows_nothing(worker: DecodeWorker)
    requires
        call_ensures(DecodeWorker::new, (), worker),
    ensures
        worker@.current is None,
        worker@.turns == 0,
{
}

} // verus!
