//! The images of a directory with a cursor that wraps around.

use crate::listing::{scan_dir, DirEntry};
use crate::path::{position_of, FilePath};
use vstd::prelude::*;

verus! {

/// A row of paths and the position of the current one.
#[verifier::ext_equal]
pub struct Cursor {
    pub paths: Seq<Seq<u8>>,
    pub at: int,
}

impl Cursor {
    /// The position is one of the row, or zero where there is none.
    pub open spec fn valid(self) -> bool {
        0 <= self.at < self.paths.len() || (self.paths.len() == 0 && self.at == 0)
    }

    /// The position that many steps away, going round at both ends.
    pub open spec fn position_after(self, steps: int) -> int {
        if self.paths.len() == 0 {
            0
        } else {
            (self.at + steps) % (self.paths.len() as int)
        }
    }

    /// The cursor that many steps away.
    pub open spec fn moved(self, steps: int) -> Cursor {
        Cursor { paths: self.paths, at: self.position_after(steps) }
    }

    /// The path under the cursor.
    pub open spec fn current(self) -> Option<Seq<u8>> {
        if self.paths.len() == 0 {
            None
        } else {
            Some(self.paths[self.at])
        }
    }

    /// The row of one path.
    pub open spec fn single(path: Seq<u8>) -> Cursor {
        Cursor { paths: seq![path], at: 0 }
    }

    /// The listed paths with the cursor on the first that is `path`, or on the first of all
    /// where none is; `path` alone where nothing is listed.
    pub open spec fn on(listed: Seq<Seq<u8>>, path: Seq<u8>) -> Cursor {
        if listed.len() == 0 {
            Cursor::single(path)
        } else {
            Cursor { paths: listed, at: first_index(listed, path) }
        }
    }
}

/// The first position of `path`, or zero where it does not occur.
pub open spec fn first_index(paths: Seq<Seq<u8>>, path: Seq<u8>) -> int {
    if paths.contains(path) {
        choose|i: int|
            0 <= i < paths.len() && #[trigger] paths[i] == path && forall|k: int|
                0 <= k < i ==> #[trigger] paths[k] != path
    } else {
        0
    }
}

/// The bytes of a path, if there is one.
pub open spec fn path_view(path: Option<FilePath>) -> Option<Seq<u8>> {
    match path {
        Some(p) => Some(p@),
        None => None,
    }
}

/// A navigable, wrap-around set of image paths with a current cursor.
#[derive(Debug)]
pub struct ImageSet {
    files: Vec<FilePath>,
    idx: usize,
}

impl View for ImageSet {
    type V = Cursor;

    closed spec fn view(&self) -> Cursor {
        Cursor { paths: crate::path::views(self.files@), at: self.idx as int }
    }
}

impl ImageSet {
    #[verifier::type_invariant]
    closed spec fn well_formed(&self) -> bool {
        self.idx < self.files.len() || (self.files.len() == 0 && self.idx == 0)
    }

    /// A set of the given files with the cursor at `start`, or on the last file if that is
    /// past the end.
    pub fn new(files: Vec<FilePath>, start: usize) -> (r: ImageSet)
        ensures
            r@.valid(),
            r@.paths == crate::path::views(files@),
            r@.at == if files.len() == 0 {
                0
            } else if start < files.len() {
                start as int
            } else {
                files.len() - 1
            },
    {
        let idx: usize = if files.len() == 0 {
            0
        } else if start < files.len() {
            start
        } else {
            files.len() - 1
        };
        ImageSet { files, idx }
    }

    pub fn empty() -> (r: ImageSet)
        ensures
            r@.valid(),
            r@ == (Cursor { paths: seq![], at: 0 }),
    {
        let r = ImageSet { files: Vec::new(), idx: 0 };
        assert(r@.paths =~= seq![]);
        r
    }

    /// The images among the entries of the file's directory, with the cursor on that file.
    /// Falls back to a single-element set if the directory shows nothing. Path matching is
    /// byte-exact.
    pub fn from_file(path: &FilePath, entries: &Vec<DirEntry>) -> (r: ImageSet)
        ensures
            r@.valid(),
            crate::listing::is_listing(entries@, crate::listing::listing_order(entries@)),
            r@ == Cursor::on(crate::listing::listing(entries@), path@),
    {
        let files = scan_dir(entries);
        let ghost listed = crate::listing::listing(entries@);
        assert(files.len() == listed.len());
        if files.len() == 0 {
            let mut only: Vec<FilePath> = Vec::new();
            only.push(path.clone());
            let r = ImageSet { files: only, idx: 0 };
            assert(r@.paths =~= seq![path@]);
            return r;
        }
        let idx: usize = match position_of(&files, path) {
            Some(i) => i,
            None => 0,
        };
        proof {
            assert forall|k: int| 0 <= k < listed.len() implies #[trigger] listed[k]
                == files@[k]@ by {}
            if listed.contains(path@) {
                let k = choose|k: int| 0 <= k < listed.len() && listed[k] == path@;
                assert(files@[k]@ == path@);
                lemma_first_index(listed, path@, idx as int);
            } else {
                assert(listed[idx as int] != path@);
            }
        }
        ImageSet { files, idx }
    }

    pub fn len(&self) -> (r: usize)
        ensures
            r == self@.paths.len(),
    {
        self.files.len()
    }

    pub fn is_empty(&self) -> (r: bool)
        ensures
            r == (self@.paths.len() == 0),
    {
        self.files.len() == 0
    }

    /// 0-based index of the current cursor.
    pub fn position(&self) -> (r: usize)
        ensures
            r == self@.at,
            self@.valid(),
    {
        proof {
            use_type_invariant(self);
        }
        self.idx
    }

    #[must_use]
    pub fn current(&self) -> (r: Option<FilePath>)
        ensures
            path_view(r) == self@.current(),
            self@.valid(),
    {
        proof {
            use_type_invariant(self);
        }
        if self.files.len() == 0 {
            None
        } else {
            Some(self.files[self.idx].clone())
        }
    }

    /// The path `offset` steps from the cursor, with wrap-around, without moving the
    /// cursor. `None` if the set is empty.
    #[must_use]
    pub fn peek(&self, offset: isize) -> (r: Option<FilePath>)
        ensures
            path_view(r) == self@.moved(offset as int).current(),
            ({
                let (at, len) = (self@.at + offset, self@.paths.len());
                &&& 0 <= at < len ==> path_view(r) == Some(self@.paths[at])
                &&& -len <= at < 0 ==> path_view(r) == Some(self@.paths[at + len])
                &&& len <= at < 2 * len ==> path_view(r) == Some(self@.paths[at - len])
            }),
            self@.valid(),
    {
        proof {
            use_type_invariant(self);
        }
        if self.files.len() == 0 {
            return None;
        }
        let len: i128 = self.files.len() as i128;
        let at: i128 = self.idx as i128 + offset as i128;
        let i: i128 = if at >= 0 {
            at % len
        } else {
            let over: i128 = (-at) % len;
            if over == 0 {
                0
            } else {
                len - over
            }
        };
        proof {
            lemma_wrapped(at as int, len as int, i as int);
            lemma_near(at as int, len as int);
        }
        Some(self.files[i as usize].clone())
    }

    /// Advance the cursor with wrap-around; returns the new current path.
    pub fn advance(&mut self) -> (r: Option<FilePath>)
        ensures
            final(self)@ == old(self)@.moved(1),
            old(self)@.paths.len() > 0 ==> final(self)@.at == if old(self)@.at + 1
                == old(self)@.paths.len() {
                0
            } else {
                old(self)@.at + 1
            },
            path_view(r) == final(self)@.current(),
            final(self)@.valid(),
    {
        proof {
            use_type_invariant(&*self);
        }
        if self.files.len() == 0 {
            return None;
        }
        let next: usize = if self.idx + 1 == self.files.len() {
            0
        } else {
            self.idx + 1
        };
        proof {
            lemma_near(self.idx + 1, self.files.len() as int);
        }
        self.idx = next;
        self.current()
    }

    /// Step the cursor back with wrap-around; returns the new current path.
    pub fn retreat(&mut self) -> (r: Option<FilePath>)
        ensures
            final(self)@ == old(self)@.moved(-1),
            old(self)@.paths.len() > 0 ==> final(self)@.at == if old(self)@.at == 0 {
                old(self)@.paths.len() - 1
            } else {
                old(self)@.at - 1
            },
            path_view(r) == final(self)@.current(),
            final(self)@.valid(),
    {
        proof {
            use_type_invariant(&*self);
        }
        if self.files.len() == 0 {
            return None;
        }
        let next: usize = if self.idx == 0 {
            self.files.len() - 1
        } else {
            self.idx - 1
        };
        proof {
            lemma_near(self.idx - 1, self.files.len() as int);
        }
        self.idx = next;
        self.current()
    }
}

proof fn lemma_first_index(paths: Seq<Seq<u8>>, path: Seq<u8>, i: int)
    requires
        0 <= i < paths.len(),
        paths[i] == path,
        forall|k: int| 0 <= k < i ==> #[trigger] paths[k] != path,
    ensures
        first_index(paths, path) == i,
{
    assert(paths.contains(path));
    let found = first_index(paths, path);
    assert(0 <= found < paths.len() && paths[found] == path && forall|k: int|
        0 <= k < found ==> #[trigger] paths[k] != path);
    if found < i {
        assert(paths[found] != path);
    }
    if i < found {
        assert(paths[i] != path);
    }
}

/// Going round once at most.
pub(crate) proof fn lemma_near(at: int, len: int)
    requires
        len > 0,
    ensures
        0 <= at < len ==> at % len == at,
        -len <= at < 0 ==> at % len == at + len,
        len <= at < 2 * len ==> at % len == at - len,
{
    if 0 <= at < len {
        vstd::arithmetic::div_mod::lemma_small_mod(at as nat, len as nat);
    } else if -len <= at < 0 {
        vstd::arithmetic::div_mod::lemma_fundamental_div_mod_converse(at, len, -1, at + len);
    } else if len <= at < 2 * len {
        vstd::arithmetic::div_mod::lemma_fundamental_div_mod_converse(at, len, 1, at - len);
    }
}

proof fn lemma_wrapped(at: int, len: int, i: int)
    requires
        len > 0,
        at >= 0 ==> i == at % len,
        at < 0 ==> i == if (-at) % len == 0 {
            0
        } else {
            len - (-at) % len
        },
    ensures
        i == at % len,
        0 <= i < len,
{
    if at < 0 {
        let over = (-at) % len;
        let rounds = (-at) / len;
        vstd::arithmetic::div_mod::lemma_fundamental_div_mod(-at, len);
        assert(at == -(len * rounds) - over);
        if over == 0 {
            assert(at == (-rounds) * len + 0) by (nonlinear_arith)
                requires
                    at == -(len * rounds),
            ;
            vstd::arithmetic::div_mod::lemma_fundamental_div_mod_converse(at, len, -rounds, 0);
        } else {
            assert(at == (-rounds - 1) * len + (len - over)) by (nonlinear_arith)
                requires
                    at == -(len * rounds) - over,
            ;
            vstd::arithmetic::div_mod::lemma_fundamental_div_mod_converse(
                at,
                len,
                -rounds - 1,
                len - over,
            );
        }
    }
}

/// Steps add up: going `a` steps and `b` more is going `a + b`, and the cursor stays in the
/// set.
pub proof fn law_steps_add_up(c: Cursor, a: int, b: int)
    requires
        c.valid(),
    ensures
        c.moved(a).valid(),
        c.moved(a).moved(b) == c.moved(a + b),
{
    if c.paths.len() > 0 {
        let len = c.paths.len() as int;
        vstd::arithmetic::div_mod::lemma_mod_bound(c.at + a, len);
        assert(((c.at + a) % len + b) % len == ((c.at + a) + b) % len) by {
            vstd::arithmetic::div_mod::lemma_add_mod_noop(c.at + a, b, len);
            vstd::arithmetic::div_mod::lemma_add_mod_noop((c.at + a) % len, b, len);
            vstd::arithmetic::div_mod::lemma_mod_twice(c.at + a, len);
        }
        assert(c.at + (a + b) == (c.at + a) + b);
    }
}

/// Going no step, or once all the way round in either direction, leads back.
pub proof fn law_going_round_leads_back(c: Cursor)
    requires
        c.valid(),
    ensures
        c.moved(0) == c,
        c.moved(c.paths.len() as int) == c,
        c.moved(-(c.paths.len() as int)) == c,
{
    if c.paths.len() > 0 {
        let len = c.paths.len() as int;
        vstd::arithmetic::div_mod::lemma_small_mod(c.at as nat, len as nat);
        vstd::arithmetic::div_mod::lemma_mod_add_multiples_vanish(c.at, len);
        vstd::arithmetic::div_mod::lemma_mod_sub_multiples_vanish(c.at, len);
    }
}

/// Advancing and retreating undo each other.
pub proof fn law_advance_and_retreat_undo(c: Cursor)
    requires
        c.valid(),
    ensures
        c.moved(1).moved(-1) == c,
        c.moved(-1).moved(1) == c,
{
    law_steps_add_up(c, 1, -1);
    law_steps_add_up(c, -1, 1);
    law_going_round_leads_back(c);
}

/// Once all the way round, in either direction, each image of the set is shown exactly once.
pub proof fn law_full_round_shows_each_once(c: Cursor, i: int)
    requires
        c.valid(),
        0 <= i < c.paths.len(),
    ensures
        exists|k: int| 1 <= k <= c.paths.len() && #[trigger] c.moved(k).at == i,
        exists|k: int| 1 <= k <= c.paths.len() && #[trigger] c.moved(-k).at == i,
        forall|j: int, k: int|
            #![trigger c.moved(j), c.moved(k)]
            1 <= j < k <= c.paths.len() ==> c.moved(j).at != c.moved(k).at,
        forall|j: int, k: int|
            #![trigger c.moved(-j), c.moved(-k)]
            1 <= j < k <= c.paths.len() ==> c.moved(-j).at != c.moved(-k).at,
{
    let len = c.paths.len() as int;
    let forth = if i > c.at {
        i - c.at
    } else {
        i - c.at + len
    };
    let back = if i < c.at {
        c.at - i
    } else {
        c.at - i + len
    };
    lemma_near(c.at + forth, len);
    lemma_near(c.at - back, len);
    assert(c.moved(forth).at == i);
    assert(c.moved(-back).at == i);
    assert forall|j: int, k: int|
        #![trigger c.moved(j), c.moved(k)]
        1 <= j < k <= len implies c.moved(j).at != c.moved(k).at by {
        lemma_near(c.at + j, len);
        lemma_near(c.at + k, len);
    }
    assert forall|j: int, k: int|
        #![trigger c.moved(-j), c.moved(-k)]
        1 <= j < k <= len implies c.moved(-j).at != c.moved(-k).at by {
        lemma_near(c.at - j, len);
        lemma_near(c.at - k, len);
    }
}

/// In a set of one, every step leads to the same place.
pub proof fn law_single_image_stays_put(c: Cursor, steps: int)
    requires
        c.valid(),
        c.paths.len() == 1,
    ensures
        c.moved(steps) == c,
{
    vstd::arithmetic::div_mod::lemma_mod_bound(c.at + steps, 1);
}

/// What is some steps away is current after going there, and what is no step away is
/// current already.
pub proof fn law_peek_shows_where_steps_lead(c: Cursor, steps: int, more: int)
    requires
        c.valid(),
    ensures
        c.moved(0).current() == c.current(),
        c.moved(steps).moved(more).current() == c.moved(steps + more).current(),
        c.paths.len() > 0 ==> c.moved(steps).current() is Some && c.paths.contains(
            c.moved(steps).current()->0,
        ),
{
    law_steps_add_up(c, steps, more);
    law_going_round_leads_back(c);
}

/// A listed file is current after the set was opened on it, and so is one whose directory
/// shows nothing.
pub proof fn law_opened_file_is_current(listed: Seq<Seq<u8>>, path: Seq<u8>)
    requires
        listed.contains(path) || listed.len() == 0,
    ensures
        Cursor::on(listed, path).valid(),
        Cursor::on(listed, path).current() == Some(path),
{
    if listed.len() > 0 {
        let k = choose|k: int| 0 <= k < listed.len() && listed[k] == path;
        lemma_first_index_exists(listed, path, k);
    }
}

proof fn lemma_first_index_exists(paths: Seq<Seq<u8>>, path: Seq<u8>, k: int)
    requires
        0 <= k < paths.len(),
        paths[k] == path,
    ensures
        0 <= first_index(paths, path) < paths.len(),
        paths[first_index(paths, path)] == path,
    decreases k,
{
    if exists|j: int| 0 <= j < k && #[trigger] paths[j] == path {
        let j = choose|j: int| 0 <= j < k && #[trigger] paths[j] == path;
        lemma_first_index_exists(paths, path, j);
    } else {
        lemma_first_index(paths, path, k);
    }
}

/// A set holds the given files in the given order; its cursor is at the given position, or at
/// the last one if that is past the end. An empty set has none.
pub proof fn law_set_holds_its_files(
    files: Vec<FilePath>,
    start: usize,
    r: ImageSet,
    empty: ImageSet,
    i: int,
)
    requires
        call_ensures(ImageSet::new, (files, start), r),
        call_ensures(ImageSet::empty, (), empty),
    ensures
        r@.paths.len() == files@.len(),
        0 <= i < files@.len() ==> r@.paths[i] == files@[i]@,
        files@.len() == 0 ==> r@.at == 0,
        start < files@.len() ==> r@.at == start,
        0 < files@.len() <= start ==> r@.at == files@.len() - 1,
        empty@.paths.len() == 0,
        empty@.at == 0,
{
}

/// What a set tells of itself: how many files, whether none, where the cursor is, and the file
/// there.
pub proof fn law_sets_tell_their_state(
    set: ImageSet,
    len: usize,
    is_empty: bool,
    position: usize,
    current: Option<FilePath>,
)
    requires
        call_ensures(ImageSet::len, (&set,), len),
        call_ensures(ImageSet::is_empty, (&set,), is_empty),
        call_ensures(ImageSet::position, (&set,), position),
        call_ensures(ImageSet::current, (&set,), current),
    ensures
        len == set@.paths.len(),
        is_empty <==> set@.paths.len() == 0,
        position == set@.at,
        set@.paths.len() == 0 ==> current is None,
        set@.paths.len() > 0 ==> current is Some && current->0@ == set@.paths[set@.at] && 0
            <= set@.at < set@.paths.len(),
{
}

/// Advancing goes to the next file, and from the last to the first; that file is handed out.
/// The files stay.
pub proof fn law_advance_goes_to_the_next(set: &mut ImageSet, r: Option<FilePath>)
    requires
        call_ensures(ImageSet::advance, (set,), r),
    ensures
        final(set)@.paths == old(set)@.paths,
        old(set)@.paths.len() == 0 ==> r is None,
        old(set)@.paths.len() > 0 ==> {
            let last = old(set)@.paths.len() - 1;
            let at = final(set)@.at;
            &&& old(set)@.at == last ==> at == 0
            &&& old(set)@.at != last ==> at == old(set)@.at + 1
            &&& r is Some
            &&& r->0@ == old(set)@.paths[at]
        },
{
}

/// Retreating goes to the file before, and from the first to the last; that file is handed
/// out. The files stay.
pub proof fn law_retreat_goes_to_the_one_before(set: &mut ImageSet, r: Option<FilePath>)
    requires
        call_ensures(ImageSet::retreat, (set,), r),
    ensures
        final(set)@.paths == old(set)@.paths,
        old(set)@.paths.len() == 0 ==> r is None,
        old(set)@.paths.len() > 0 ==> {
            let last = old(set)@.paths.len() - 1;
            let at = final(set)@.at;
            &&& old(set)@.at == 0 ==> at == last
            &&& old(set)@.at != 0 ==> at == old(set)@.at - 1
            &&& r is Some
            &&& r->0@ == old(set)@.paths[at]
        },
{
}

/// What lies some steps away is the file that many places on, going round as often as needed:
/// its position differs from the cursor and the steps by whole rounds.
pub proof fn law_peek_looks_steps_away(set: ImageSet, offset: isize, r: Option<FilePath>)
    requires
        call_ensures(ImageSet::peek, (&set, offset), r),
    ensures
        set@.paths.len() == 0 ==> r is None,
        set@.paths.len() > 0 ==> r is Some && exists|i: int, rounds: int|
            #![trigger set@.paths[i], set@.paths.len() * rounds]
            0 <= i < set@.paths.len() && set@.at + offset == i + set@.paths.len() * rounds
                && r->0@ == set@.paths[i],
{
    if set@.paths.len() > 0 {
        let len = set@.paths.len() as int;
        let at = set@.at + offset;
        vstd::arithmetic::div_mod::lemma_fundamental_div_mod(at, len);
        vstd::arithmetic::div_mod::lemma_mod_bound(at, len);
        let (i, rounds) = (at % len, at / len);
        assert(r->0@ == set@.paths[i]);
        assert(at == i + set@.paths.len() * rounds);
    }
}

/// A set that was opened on a file holds the files that a scan of the same entries gives, with
/// the cursor on the first that is the file byte by byte, or on the first of all. Where the
/// scan gives none it holds the file alone.
pub proof fn law_opened_set_is_the_scan(
    path: &FilePath,
    entries: &Vec<DirEntry>,
    files: Vec<FilePath>,
    r: ImageSet,
    i: int,
)
    requires
        call_ensures(scan_dir, (entries,), files),
        call_ensures(ImageSet::from_file, (path, entries), r),
    ensures
        files@.len() == 0 ==> r@.paths == seq![path@] && r@.at == 0,
        files@.len() > 0 ==> {
            &&& r@.paths.len() == files@.len()
            &&& 0 <= i < files@.len() ==> r@.paths[i] == files@[i]@
            &&& 0 <= r@.at < files@.len()
            &&& 0 <= i < files@.len() && files@[i]@ == path@ ==> files@[r@.at]@ == path@ && r@.at
                <= i
            &&& files@[r@.at]@ != path@ ==> r@.at == 0
        },
{
    let listed = crate::listing::listing(entries@);
    assert(crate::path::views(files@).len() == files@.len());
    assert forall|k: int| 0 <= k < files@.len() implies #[trigger] listed[k] == files@[k]@ by {
        assert(crate::path::views(files@)[k] == files@[k]@);
    }
    if files@.len() > 0 && listed.contains(path@) {
        let k = choose|k: int| 0 <= k < listed.len() && listed[k] == path@;
        lemma_first_index_exists(listed, path@, k);
        if 0 <= i < listed.len() {
            lemma_none_before_first_index(listed, path@, i);
        }
    }
    if 0 <= i < files@.len() && files@[i]@ == path@ {
        assert(listed[i] == path@);
        assert(listed.contains(path@));
    }
}

proof fn lemma_none_before_first_index(paths: Seq<Seq<u8>>, path: Seq<u8>, i: int)
    requires
        0 <= i < paths.len(),
        paths.contains(path),
    ensures
        paths[i] == path ==> first_index(paths, path) <= i,
    decreases i,
{
    if paths[i] == path {
        if exists|j: int| 0 <= j < i && #[trigger] paths[j] == path {
            let j = choose|j: int| 0 <= j < i && #[trigger] paths[j] == path;
            lemma_none_before_first_index(paths, path, j);
        } else {
            lemma_first_index(paths, path, i);
        }
    }
}

} // verus!
