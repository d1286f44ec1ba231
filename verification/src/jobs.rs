//! What the user asked for, and what is left of a burst of it.

use crate::caption::caption_for;
use crate::imageset::{Cursor, ImageSet};
use crate::path::FilePath;
use vstd::prelude::*;

verus! {

/// One unit of work for the foreground decode worker.
#[derive(Debug)]
pub enum Job {
    /// Show a file, optionally setting the caption once it is on screen. Decoding a fresh
    /// image resets the view rotation to 0.
    Show { path: FilePath, caption: Option<String> },
    /// Rotate the current view by quarter turns: +1 is clockwise, -1 counter-clockwise. It
    /// never touches the file on disk.
    Rotate(i32),
}

/// Which way to move the navigation cursor.
#[derive(Clone, Copy, Debug, PartialEq, Eq, Structural)]
pub enum Nav {
    Next,
    Prev,
}

/// The characters of a text, if there is one.
pub open spec fn text_view(text: Option<String>) -> Option<Seq<char>> {
    match text {
        Some(t) => Some(t@),
        None => None,
    }
}

/// The position of the last job that shows a file, or -1.
pub open spec fn last_show(jobs: Seq<Job>) -> int
    decreases jobs.len(),
{
    if jobs.len() == 0 {
        -1
    } else if jobs.last() is Show {
        jobs.len() - 1
    } else {
        last_show(jobs.drop_last())
    }
}

/// The quarter turns that a job asks for.
pub open spec fn turns_of(job: Job) -> int {
    match job {
        Job::Rotate(d) => d as int,
        Job::Show { .. } => 0,
    }
}

/// The sum of the quarter turns of all jobs.
pub open spec fn net_turns(jobs: Seq<Job>) -> int
    decreases jobs.len(),
{
    if jobs.len() == 0 {
        0
    } else {
        net_turns(jobs.drop_last()) + turns_of(jobs.last())
    }
}

/// The path and caption of the last job that shows a file.
pub open spec fn shown_by(jobs: Seq<Job>) -> Option<(Seq<u8>, Option<Seq<char>>)> {
    if last_show(jobs) < 0 {
        None
    } else {
        match jobs[last_show(jobs)] {
            Job::Show { path, caption } => Some((path@, text_view(caption))),
            Job::Rotate(_) => None,
        }
    }
}

/// The sum of the quarter turns after the last job that shows a file.
pub open spec fn turns_after_show(jobs: Seq<Job>) -> int {
    net_turns(jobs.skip(last_show(jobs) + 1))
}

/// At no point in the batch is the rotation so far beyond what an `i32` holds.
pub open spec fn countable(jobs: Seq<Job>) -> bool {
    forall|k: int|
        0 <= k <= jobs.len() ==> i32::MIN <= #[trigger] turns_after_show(jobs.take(k))
            <= i32::MAX
}

proof fn lemma_last_show(jobs: Seq<Job>)
    ensures
        -1 <= last_show(jobs) < jobs.len(),
        last_show(jobs) >= 0 ==> jobs[last_show(jobs)] is Show,
        forall|k: int| last_show(jobs) < k < jobs.len() ==> #[trigger] jobs[k] is Rotate,
    decreases jobs.len(),
{
    if jobs.len() > 0 && !(jobs.last() is Show) {
        lemma_last_show(jobs.drop_last());
        assert forall|k: int| last_show(jobs) < k < jobs.len() implies #[trigger] jobs[k] is Rotate by {
            if k < jobs.len() - 1 {
                assert(jobs.drop_last()[k] == jobs[k]);
            }
        }
    }
}

/// One more job either shows a file, and then nothing before it counts, or adds its turns.
proof fn lemma_one_more_job(jobs: Seq<Job>, job: Job)
    ensures
        job is Show ==> last_show(jobs.push(job)) == jobs.len() && turns_after_show(jobs.push(job))
            == 0,
        job is Rotate ==> last_show(jobs.push(job)) == last_show(jobs) && turns_after_show(
            jobs.push(job),
        ) == turns_after_show(jobs) + turns_of(job),
{
    let more = jobs.push(job);
    assert(more.drop_last() =~= jobs);
    lemma_last_show(jobs);
    if job is Show {
        assert(more.skip(jobs.len() as int + 1) =~= Seq::<Job>::empty());
    } else {
        let from = last_show(jobs) + 1;
        assert(more.skip(from).drop_last() =~= jobs.skip(from));
        assert(more.skip(from).last() == job);
    }
}

proof fn lemma_no_turns()
    ensures
        turns_after_show(Seq::empty()) == 0,
{
    assert(Seq::<Job>::empty().skip(0) =~= Seq::<Job>::empty());
}

/// Whether the rotations of the batch can be summed up.
pub fn is_countable(jobs: &Vec<Job>) -> (r: bool)
    ensures
        r == countable(jobs@),
{
    let mut delta: i32 = 0;
    let mut i: usize = 0;
    proof {
        assert(jobs@.take(0) =~= Seq::<Job>::empty());
        lemma_no_turns();
    }
    while i < jobs.len()
        invariant
            i <= jobs.len(),
            delta == turns_after_show(jobs@.take(i as int)),
            forall|k: int|
                0 <= k <= i ==> i32::MIN <= #[trigger] turns_after_show(jobs@.take(k)) <= i32::MAX,
        decreases jobs.len() - i,
    {
        proof {
            let done = jobs@.take(i as int);
            assert(jobs@.take(i + 1) =~= done.push(jobs@[i as int]));
            lemma_one_more_job(done, jobs@[i as int]);
        }
        match &jobs[i] {
            Job::Show { .. } => {
                delta = 0;
            },
            Job::Rotate(d) => {
                match delta.checked_add(*d) {
                    Some(sum) => {
                        delta = sum;
                    },
                    None => {
                        return false;
                    },
                }
            },
        }
        i = i + 1;
    }
    true
}

/// Reduces a drained batch of jobs to the last `Show`, if any, and the net rotation of the
/// `Rotate`s that come after it. Rotations before it are discarded, as a new image starts
/// upright. Without a `Show` all rotations count.
pub fn reduce_batch(jobs: Vec<Job>) -> (r: (Option<(FilePath, Option<String>)>, i32))
    requires
        countable(jobs@),
    ensures
        match r.0 {
            Some((path, caption)) => shown_by(jobs@) == Some((path@, text_view(caption))),
            None => shown_by(jobs@) is None,
        },
        r.1 == turns_after_show(jobs@),
{
    let mut show: Option<(FilePath, Option<String>)> = None;
    let mut delta: i32 = 0;
    let mut i: usize = 0;
    proof {
        assert(jobs@.take(0) =~= Seq::<Job>::empty());
        lemma_no_turns();
    }
    while i < jobs.len()
        invariant
            i <= jobs.len(),
            countable(jobs@),
            delta == turns_after_show(jobs@.take(i as int)),
            match show {
                Some((path, caption)) => shown_by(jobs@.take(i as int)) == Some(
                    (path@, text_view(caption)),
                ),
                None => shown_by(jobs@.take(i as int)) is None,
            },
        decreases jobs.len() - i,
    {
        proof {
            let done = jobs@.take(i as int);
            assert(jobs@.take(i + 1) =~= done.push(jobs@[i as int]));
            lemma_one_more_job(done, jobs@[i as int]);
            lemma_last_show(done);
            assert(i32::MIN <= turns_after_show(jobs@.take(i + 1)) <= i32::MAX);
        }
        match &jobs[i] {
            Job::Show { path, caption } => {
                let copied: Option<String> = match caption {
                    Some(c) => Some(c.clone()),
                    None => None,
                };
                show = Some((path.clone(), copied));
                delta = 0;
            },
            Job::Rotate(d) => {
                delta = delta + *d;
            },
        }
        i = i + 1;
    }
    assert(jobs@.take(jobs@.len() as int) =~= jobs@);
    (show, delta)
}

/// A batch in two parts: if the second part shows a file, the first does not matter; else
/// the rotations of both add up.
pub proof fn law_batches_join(a: Seq<Job>, b: Seq<Job>)
    ensures
        last_show(b) >= 0 ==> shown_by(a + b) == shown_by(b) && turns_after_show(a + b)
            == turns_after_show(b),
        last_show(b) < 0 ==> shown_by(a + b) == shown_by(a) && turns_after_show(a + b)
            == turns_after_show(a) + turns_after_show(b),
    decreases b.len(),
{
    lemma_last_show(a);
    lemma_last_show(b);
    if b.len() == 0 {
        assert(a + b =~= a);
        assert(b.skip(0) =~= Seq::<Job>::empty());
    } else {
        let rest = b.drop_last();
        let job = b.last();
        law_batches_join(a, rest);
        assert(rest.push(job) =~= b);
        assert((a + rest).push(job) =~= a + b);
        lemma_one_more_job(rest, job);
        lemma_one_more_job(a + rest, job);
        lemma_last_show(rest);
        lemma_last_show(a + rest);
    }
}

/// Showing a file makes everything before it irrelevant.
pub proof fn law_show_resets(before: Seq<Job>, job: Job, after: Seq<Job>)
    requires
        job is Show,
    ensures
        shown_by(before + seq![job] + after) == shown_by(seq![job] + after),
        turns_after_show(before + seq![job] + after) == turns_after_show(seq![job] + after),
        shown_by(seq![job] + after) is Some,
{
    let rest = seq![job] + after;
    assert(before + seq![job] + after =~= before + rest);
    law_batches_join(before, rest);
    law_batches_join(seq![job], after);
    lemma_one_more_job(Seq::empty(), job);
    assert(Seq::<Job>::empty().push(job) =~= seq![job]);
    lemma_last_show(rest);
    if last_show(rest) < 0 {
        assert(rest[0] is Rotate);
    }
}

proof fn lemma_net_turns_bounded(jobs: Seq<Job>)
    requires
        forall|k: int| 0 <= k < jobs.len() ==> -1 <= turns_of(#[trigger] jobs[k]) <= 1,
    ensures
        -(jobs.len() as int) <= net_turns(jobs) <= jobs.len(),
    decreases jobs.len(),
{
    if jobs.len() > 0 {
        assert forall|k: int| 0 <= k < jobs.drop_last().len() implies -1 <= turns_of(
            #[trigger] jobs.drop_last()[k],
        ) <= 1 by {
            assert(jobs.drop_last()[k] == jobs[k]);
        }
        lemma_net_turns_bounded(jobs.drop_last());
        assert(jobs.last() == jobs[jobs.len() - 1]);
    }
}

/// Single quarter turns can be summed up in every batch of up to `i32::MAX` jobs.
pub proof fn law_quarter_turns_are_countable(jobs: Seq<Job>)
    requires
        jobs.len() <= i32::MAX,
        forall|k: int| 0 <= k < jobs.len() ==> -1 <= turns_of(#[trigger] jobs[k]) <= 1,
    ensures
        countable(jobs),
{
    assert forall|k: int| 0 <= k <= jobs.len() implies i32::MIN <= #[trigger] turns_after_show(
        jobs.take(k),
    ) <= i32::MAX by {
        let part = jobs.take(k);
        lemma_last_show(part);
        let rest = part.skip(last_show(part) + 1);
        assert forall|j: int| 0 <= j < rest.len() implies -1 <= turns_of(#[trigger] rest[j]) <= 1 by {
            assert(rest[j] == jobs[last_show(part) + 1 + j]);
        }
        lemma_net_turns_bounded(rest);
    }
}

/// How far the cursor goes.
pub open spec fn steps_of(dir: Nav) -> int {
    match dir {
        Nav::Next => 1,
        Nav::Prev => -1,
    }
}

/// The caption for the path under the cursor, with a file name that `name_of` may give.
pub open spec fn captioned<F: Fn(&FilePath) -> String>(
    name_of: F,
    path: FilePath,
    c: Cursor,
    caption: Seq<char>,
) -> bool {
    exists|name: String| #[trigger]
        call_ensures(name_of, (&path,), name) && caption == crate::caption::caption(
            c.at as nat,
            c.paths.len(),
            name@,
        )
}

/// Moves the cursor and builds the job that shows the new current image, with a caption
/// made on the spot so that it always matches. `name_of` gives the file name of a path.
/// `None` if the set is empty.
pub fn nav_request(
    nav: &mut ImageSet,
    dir: Nav,
    name_of: impl Fn(&FilePath) -> String,
) -> (r: Option<Job>)
    requires
        forall|p: FilePath| #[trigger] call_requires(name_of, (&p,)),
    ensures
        final(nav)@ == old(nav)@.moved(steps_of(dir)),
        r is None <==> old(nav)@.paths.len() == 0,
        r matches Some(job) ==> {
            &&& job is Show
            &&& final(nav)@.current() == Some(job->path@)
            &&& job->caption is Some
            &&& captioned(name_of, job->path, final(nav)@, job->caption->0@)
        },
{
    let moved = match dir {
        Nav::Next => nav.advance(),
        Nav::Prev => nav.retreat(),
    };
    match moved {
        None => None,
        Some(path) => {
            let name = name_of(&path);
            let at: usize = nav.position();
            let caption = caption_for(at, nav.len(), name.as_str());
            assert(captioned(name_of, path, nav@, caption@)) by {
                assert(call_ensures(name_of, (&path,), name));
            }
            Some(Job::Show { path, caption: Some(caption) })
        },
    }
}

/// The paths around the cursor: the one before, the current one and the one after.
pub open spec fn around(c: Cursor) -> Seq<Seq<u8>> {
    if c.paths.len() == 0 {
        seq![]
    } else {
        seq![c.moved(-1).current()->0, c.moved(0).current()->0, c.moved(1).current()->0]
    }
}

/// The paths worth keeping decoded: the current one and its neighbors, without moving the
/// cursor. Empty if the set is.
pub fn keep_set(nav: &ImageSet) -> (keep: Vec<FilePath>)
    ensures
        crate::path::views(keep@) == around(nav@),
{
    let mut keep: Vec<FilePath> = Vec::new();
    if let Some(p) = nav.peek(-1) {
        keep.push(p);
    }
    if let Some(p) = nav.peek(0) {
        keep.push(p);
    }
    if let Some(p) = nav.peek(1) {
        keep.push(p);
    }
    assert(crate::path::views(keep@) =~= around(nav@));
    keep
}

/// The neighbors that are kept are what the next step in either direction shows.
pub proof fn law_next_step_is_kept(c: Cursor, dir: Nav)
    requires
        c.valid(),
        c.paths.len() > 0,
    ensures
        around(c).contains(c.moved(steps_of(dir)).current()->0),
        around(c).contains(c.current()->0),
        around(c).len() == 3,
{
    crate::imageset::law_going_round_leads_back(c);
    let kept = around(c);
    assert(kept[0] == c.moved(-1).current()->0);
    assert(kept[1] == c.current()->0);
    assert(kept[2] == c.moved(1).current()->0);
}

/// The quarter turns that the jobs from a position on ask for, in all.
pub open spec fn turns_from(jobs: Seq<Job>, from: int) -> int
    decreases jobs.len() - from,
{
    if from < 0 || from >= jobs.len() {
        0
    } else {
        (match jobs[from] {
            Job::Rotate(d) => d as int,
            Job::Show { .. } => 0,
        }) + turns_from(jobs, from + 1)
    }
}

proof fn lemma_turns_from(jobs: Seq<Job>, from: int)
    requires
        0 <= from <= jobs.len(),
    ensures
        net_turns(jobs.skip(from)) == turns_from(jobs, from),
    decreases jobs.len() - from,
{
    if from < jobs.len() {
        lemma_turns_from(jobs, from + 1);
        lemma_first_turn(jobs.skip(from));
        assert(jobs.skip(from).skip(1) =~= jobs.skip(from + 1));
    } else {
        assert(jobs.skip(from) =~= Seq::<Job>::empty());
    }
}

proof fn lemma_first_turn(jobs: Seq<Job>)
    requires
        jobs.len() > 0,
    ensures
        net_turns(jobs) == turns_of(jobs[0]) + net_turns(jobs.skip(1)),
    decreases jobs.len(),
{
    if jobs.len() == 1 {
        assert(jobs.drop_last() =~= Seq::<Job>::empty());
        assert(jobs.skip(1) =~= Seq::<Job>::empty());
    } else {
        lemma_first_turn(jobs.drop_last());
        assert(jobs.drop_last().skip(1) =~= jobs.skip(1).drop_last());
        assert(jobs.skip(1).last() == jobs.last());
    }
}

/// What is left of a batch: the last job that shows a file, with its own path and caption, and
/// the sum of the turns that come after it; without such a job, the sum of all turns.
pub proof fn law_batch_comes_down_to_its_last_file(
    jobs: Vec<Job>,
    r: (Option<(FilePath, Option<String>)>, i32),
)
    requires
        call_ensures(reduce_batch, (jobs,), r),
    ensures
        r.0 is None ==> r.1 == turns_from(jobs@, 0) && forall|k: int|
            0 <= k < jobs@.len() ==> #[trigger] jobs@[k] is Rotate,
        r.0 matches Some((path, caption)) ==> exists|last: int|
            #![trigger jobs@[last]]
            {
                &&& 0 <= last < jobs@.len()
                &&& jobs@[last] matches Job::Show { path: p, caption: c } && path@ == p@ && (caption
                    is Some <==> c is Some) && (caption is Some ==> caption->0@ == c->0@)
                &&& forall|k: int| last < k < jobs@.len() ==> #[trigger] jobs@[k] is Rotate
                &&& r.1 == turns_from(jobs@, last + 1)
            },
{
    let last = last_show(jobs@);
    lemma_last_show(jobs@);
    lemma_turns_from(jobs@, last + 1);
    if last >= 0 {
        assert(jobs@[last] is Show);
    }
}

/// A batch of single quarter turns is countable, up to `i32::MAX` jobs.
pub proof fn law_single_turns_can_be_counted(jobs: &Vec<Job>, r: bool)
    requires
        call_ensures(is_countable, (jobs,), r),
        jobs@.len() <= i32::MAX,
        forall|k: int|
            0 <= k < jobs@.len() ==> (#[trigger] jobs@[k] matches Job::Rotate(d) ==> -1 <= d <= 1),
    ensures
        r,
{
    assert forall|k: int| 0 <= k < jobs@.len() implies -1 <= turns_of(#[trigger] jobs@[k]) <= 1 by {}
    law_quarter_turns_are_countable(jobs@);
}

/// A navigation key shows the next file or the one before, going round at the ends, with a
/// caption that says which of how many it is and its name. In an empty set there is nothing to
/// show.
pub proof fn law_navigation_shows_the_neighbor<F: Fn(&FilePath) -> String>(
    nav: &mut ImageSet,
    dir: Nav,
    name_of: F,
    r: Option<Job>,
)
    requires
        call_ensures(nav_request, (nav, dir, name_of), r),
        old(nav)@.valid(),
    ensures
        final(nav)@.paths == old(nav)@.paths,
        old(nav)@.paths.len() == 0 ==> r is None,
        old(nav)@.paths.len() > 0 ==> {
            let len = old(nav)@.paths.len();
            let at = final(nav)@.at;
            &&& dir == Nav::Next && old(nav)@.at == len - 1 ==> at == 0
            &&& dir == Nav::Next && old(nav)@.at != len - 1 ==> at == old(nav)@.at + 1
            &&& dir == Nav::Prev && old(nav)@.at == 0 ==> at == len - 1
            &&& dir == Nav::Prev && old(nav)@.at != 0 ==> at == old(nav)@.at - 1
            &&& r matches Some(Job::Show { path, caption: Some(caption) }) && path@
                == old(nav)@.paths[at] && exists|name: String| #[trigger]
                call_ensures(name_of, (&path,), name) && caption@ == crate::caption::caption_text(
                    (at + 1) as nat,
                    len,
                    name@,
                )
        },
{
    let len = old(nav)@.paths.len() as int;
    if len > 0 {
        let at = old(nav)@.at;
        crate::imageset::lemma_near(at + 1, len);
        crate::imageset::lemma_near(at - 1, len);
        if let Some(Job::Show { path, caption: Some(caption) }) = r {
            let name = choose|name: String| #[trigger]
                call_ensures(name_of, (&path,), name) && caption@ == crate::caption::caption(
                    final(nav)@.at as nat,
                    final(nav)@.paths.len(),
                    name@,
                );
            crate::caption::lemma_caption(final(nav)@.at as nat, len as nat, name@);
            assert(call_ensures(name_of, (&path,), name));
        }
    }
}

/// What is kept decoded: the file before the cursor, the one there and the one after, going
/// round at the ends; nothing in an empty set.
pub proof fn law_neighbors_are_kept(nav: &ImageSet, keep: Vec<FilePath>)
    requires
        call_ensures(keep_set, (nav,), keep),
        nav@.valid(),
    ensures
        nav@.paths.len() == 0 ==> keep@.len() == 0,
        nav@.paths.len() > 0 ==> {
            let (at, len) = (nav@.at, nav@.paths.len());
            &&& keep@.len() == 3
            &&& keep@[0]@ == nav@.paths[if at == 0 {
                len - 1
            } else {
                at - 1
            }]
            &&& keep@[1]@ == nav@.paths[at]
            &&& keep@[2]@ == nav@.paths[if at == len - 1 {
                0
            } else {
                at + 1
            }]
        },
{
    let kept = crate::path::views(keep@);
    assert(kept.len() == keep@.len());
    let len = nav@.paths.len() as int;
    if len > 0 {
        crate::imageset::lemma_near(nav@.at + 1, len);
        crate::imageset::lemma_near(nav@.at - 1, len);
        crate::imageset::lemma_near(nav@.at, len);
        assert(kept[0] == keep@[0]@ && kept[1] == keep@[1]@ && kept[2] == keep@[2]@);
    }
}

/// The turns since the last file, after so many jobs.
pub open spec fn running_turns(jobs: Seq<Job>, count: nat) -> int
    decreases count,
{
    if count == 0 {
        0
    } else {
        match jobs[count - 1] {
            Job::Show { .. } => 0,
            Job::Rotate(d) => running_turns(jobs, (count - 1) as nat) + d,
        }
    }
}

proof fn lemma_running_turns(jobs: Seq<Job>, count: nat)
    requires
        count <= jobs.len(),
    ensures
        turns_after_show(jobs.take(count as int)) == running_turns(jobs, count),
    decreases count,
{
    if count == 0 {
        assert(jobs.take(0) =~= Seq::<Job>::empty());
        lemma_no_turns();
    } else {
        lemma_running_turns(jobs, (count - 1) as nat);
        assert(jobs.take(count as int) =~= jobs.take(count - 1).push(jobs[count - 1]));
        lemma_one_more_job(jobs.take(count - 1), jobs[count - 1]);
    }
}

/// A batch is countable exactly if the turns since the last file are within an `i32` all along,
/// and every countable batch can be reduced.
pub proof fn law_countable_is_within_range(jobs: Vec<Job>, r: bool)
    requires
        call_ensures(is_countable, (&jobs,), r),
    ensures
        r <==> forall|k: nat|
            k <= jobs@.len() ==> i32::MIN <= #[trigger] running_turns(jobs@, k) <= i32::MAX,
        r ==> call_requires(reduce_batch, (jobs,)),
{
    assert forall|k: nat| k <= jobs@.len() implies #[trigger] running_turns(jobs@, k)
        == turns_after_show(jobs@.take(k as int)) by {
        lemma_running_turns(jobs@, k);
    }
    if forall|k: nat|
        k <= jobs@.len() ==> i32::MIN <= #[trigger] running_turns(jobs@, k) <= i32::MAX {
        assert forall|k: int| 0 <= k <= jobs@.len() implies i32::MIN <= #[trigger] turns_after_show(
            jobs@.take(k),
        ) <= i32::MAX by {
            assert(i32::MIN <= running_turns(jobs@, k as nat) <= i32::MAX);
        }
    }
    if r {
        assert forall|k: nat| k <= jobs@.len() implies i32::MIN <= #[trigger] running_turns(
            jobs@,
            k,
        ) <= i32::MAX by {
            assert(i32::MIN <= turns_after_show(jobs@.take(k as int)) <= i32::MAX);
        }
    }
}

} // verus!
