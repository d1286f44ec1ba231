use photoviewer::batch::{coalesce_latest, drain_batch};
use photoviewer::cache::Cache;
use photoviewer::caption::{caption_for, failure_message};
use photoviewer::imageset::ImageSet;
use photoviewer::inbox::Inbox;
use photoviewer::jobs::{is_countable, keep_set, nav_request, reduce_batch, Job, Nav};
use photoviewer::path::FilePath;
use photoviewer::raster::{rotate_turns, Raster};
use photoviewer::worker::{
    obtain_base, store_base, DecodeWorker, DecodedFrame, Prefetch, Shown, Update, MAX_DISPLAY_DIM,
};
use std::sync::atomic::{AtomicUsize, Ordering};
use std::sync::mpsc;
use std::sync::Arc;

fn path(s: &str) -> FilePath {
    FilePath::new(s.as_bytes().to_vec())
}

fn name_of(p: &FilePath) -> String {
    let text = String::from_utf8(p.as_bytes().to_vec()).unwrap();
    text.rsplit('/').next().unwrap().to_string()
}

fn raster(w: u32, h: u32) -> Raster {
    let data: Vec<u8> = (0..w * h * 4).map(|i| i as u8).collect();
    Raster::new(w, h, 4, data).unwrap()
}

fn frame(update: &Update) -> &DecodedFrame {
    match update {
        Update::Frame(f) => f,
        Update::Status(text) => panic!("unexpected status {text}"),
    }
}

#[test]
fn coalesce_latest_keeps_only_the_newest_queued() {
    let (tx, rx) = mpsc::channel::<u32>();
    tx.send(2).unwrap();
    tx.send(3).unwrap();
    // first = 1, then drain the queue (2, 3) → newest wins.
    assert_eq!(coalesce_latest(1, &mut Inbox::new(&rx)), 3);
    // queue is fully drained afterwards.
    assert!(rx.try_recv().is_err());
}

#[test]
fn coalesce_latest_returns_first_when_queue_empty() {
    let (_tx, rx) = mpsc::channel::<u32>();
    assert_eq!(coalesce_latest(7, &mut Inbox::new(&rx)), 7);
}

#[test]
fn decode_loop_serializes_and_coalesces_a_burst() {
    const N: u32 = 8;
    let (tx, rx) = mpsc::channel::<u32>();
    for i in 0..N {
        tx.send(i).unwrap();
    }
    drop(tx); // close the channel so the loop exits once drained

    let concurrent = AtomicUsize::new(0);
    let max_concurrent = AtomicUsize::new(0);
    let mut processed = Vec::new();
    while let Ok(first) = rx.recv() {
        let item = coalesce_latest(first, &mut Inbox::new(&rx));
        let now = concurrent.fetch_add(1, Ordering::SeqCst) + 1;
        max_concurrent.fetch_max(now, Ordering::SeqCst);
        processed.push(item);
        concurrent.fetch_sub(1, Ordering::SeqCst);
    }

    // Never more than one decode at a time...
    assert_eq!(max_concurrent.load(Ordering::SeqCst), 1, "decodes must be serialized");
    // ...and a burst of N collapses to just the latest target (no wasted work).
    assert_eq!(processed, vec![N - 1], "burst must coalesce to the latest request");
}

/// `drain_batch` preserves order and drains the queue (unlike coalesce_latest).
#[test]
fn drain_batch_collects_the_whole_queue_in_order() {
    let (tx, rx) = mpsc::channel::<u32>();
    tx.send(2).unwrap();
    tx.send(3).unwrap();
    assert_eq!(drain_batch(1, &mut Inbox::new(&rx)), vec![1, 2, 3]);
    assert!(rx.try_recv().is_err());
}

#[test]
fn inbox_gives_nothing_from_a_closed_or_empty_channel() {
    let (tx, rx) = mpsc::channel::<u32>();
    let mut inbox = Inbox::new(&rx);
    assert_eq!(drain_batch(1, &mut inbox), vec![1]);
    tx.send(5).unwrap();
    assert_eq!(drain_batch(1, &mut inbox), vec![1, 5]);
    drop(tx);
    assert_eq!(drain_batch(1, &mut inbox), vec![1]);
    assert_eq!(coalesce_latest(2, &mut inbox), 2);
}

/// `reduce_batch` keeps only the LAST Show and the net rotation that follows it; a
/// Show resets rotation, so the pre-Show Rotate(+1) here is discarded.
#[test]
fn reduce_batch_keeps_last_show_and_post_show_net_rotation() {
    let a = path("/d/a.jpg");
    let b = path("/d/b.jpg");
    let (show, delta) = reduce_batch(vec![
        Job::Show { path: a, caption: None },
        Job::Rotate(1),
        Job::Show { path: b.clone(), caption: Some("b".into()) },
        Job::Rotate(-1),
    ]);
    assert_eq!(show, Some((b, Some("b".into()))));
    assert_eq!(delta, -1, "only rotates after the last Show count");
}

/// With no Show in the batch, the net rotation is the sum of all rotates and there
/// is nothing to show (the worker re-derives from its held base).
#[test]
fn reduce_batch_rotate_only_sums_with_no_show() {
    let (show, delta) = reduce_batch(vec![Job::Rotate(1), Job::Rotate(1)]);
    assert!(show.is_none());
    assert_eq!(delta, 2);
}

/// A lone Show yields that Show with zero rotation.
#[test]
fn reduce_batch_single_show_has_zero_rotation() {
    let a = path("/d/a.jpg");
    let (show, delta) = reduce_batch(vec![Job::Show { path: a.clone(), caption: None }]);
    assert_eq!(show, Some((a, None)));
    assert_eq!(delta, 0);
}

#[test]
fn reduce_batch_of_nothing_and_of_two_parts() {
    let (show, delta) = reduce_batch(Vec::new());
    assert!(show.is_none());
    assert_eq!(delta, 0);
    let (show, delta) = reduce_batch(vec![
        Job::Show { path: path("/d/a.jpg"), caption: None },
        Job::Rotate(3),
        Job::Rotate(-1),
    ]);
    let (none, more) = reduce_batch(vec![Job::Rotate(5)]);
    assert!(none.is_none());
    let (joined_show, joined) = reduce_batch(vec![
        Job::Show { path: path("/d/a.jpg"), caption: None },
        Job::Rotate(3),
        Job::Rotate(-1),
        Job::Rotate(5),
    ]);
    assert_eq!(joined_show, show);
    assert_eq!(joined, delta + more);
}

/// On a cache HIT, `obtain_base` returns the cached Arc and never calls the decoder.
/// On a MISS it calls the decoder once and caches the result for next time.
#[test]
fn obtain_base_uses_cache_on_hit_and_decodes_on_miss() {
    let mut cache = Cache::new();
    let hit_path = path("/d/hit.jpg");
    let miss_path = path("/d/miss.jpg");

    // Pre-seed the cache with a tiny 1x1 buffer for the hit path.
    let seeded = Arc::new(raster(1, 1));
    cache.insert(hit_path.clone(), seeded.clone());

    let calls = AtomicUsize::new(0);
    let decode = |_p: &FilePath| -> Result<Raster, std::io::Error> {
        calls.fetch_add(1, Ordering::SeqCst);
        Ok(raster(2, 2))
    };

    // HIT: same Arc, decoder untouched.
    let got = obtain_base(&mut cache, &hit_path, &decode).unwrap();
    assert!(Arc::ptr_eq(&got, &seeded), "must return the cached Arc");
    assert_eq!(calls.load(Ordering::SeqCst), 0, "hit must not decode");

    // MISS: decoder runs once and the result is inserted into the cache.
    let got = obtain_base(&mut cache, &miss_path, &decode).unwrap();
    assert_eq!((got.width(), got.height()), (2, 2));
    assert_eq!(calls.load(Ordering::SeqCst), 1, "miss must decode once");
    assert!(cache.contains(&miss_path), "miss result must be cached");

    // Second call for the now-cached path must NOT decode again.
    let _ = obtain_base(&mut cache, &miss_path, &decode).unwrap();
    assert_eq!(calls.load(Ordering::SeqCst), 1, "second hit must not decode");
}

#[test]
fn failed_decode_is_handed_on_and_not_cached() {
    let mut cache = Cache::new();
    let got = obtain_base(&mut cache, &path("/d/x.jpg"), |_| Err::<Raster, &str>("broken"));
    assert_eq!(got, Err("broken"));
    assert_eq!(cache.len(), 0);
    assert!(cache.get(&path("/d/x.jpg")).is_none());
}

#[test]
fn cache_replaces_and_retains() {
    let mut cache = Cache::new();
    for (name, side) in [("a", 1), ("b", 2), ("c", 3), ("d", 4)] {
        cache.insert(path(name), Arc::new(raster(side, side)));
    }
    assert_eq!(cache.len(), 4);
    cache.insert(path("b"), Arc::new(raster(9, 1)));
    assert_eq!(cache.len(), 4);
    assert_eq!(cache.get(&path("b")).unwrap().width(), 9);
    cache.retain(&vec![path("d"), path("b"), path("b"), path("z")]);
    assert_eq!(cache.len(), 2);
    assert!(cache.contains(&path("b")) && cache.contains(&path("d")));
    assert!(!cache.contains(&path("a")) && !cache.contains(&path("z")));
    assert_eq!(cache.get(&path("d")).unwrap().width(), 4);
}

#[test]
fn prefetch_finds_what_is_missing_and_trims_the_rest() {
    let mut cache = Cache::new();
    cache.insert(path("old"), Arc::new(raster(1, 1)));
    cache.insert(path("b"), Arc::new(raster(2, 2)));
    let mut pass = Prefetch::new(vec![path("a"), path("b"), path("broken"), path("a")]);
    assert_eq!(pass.next_missing(&cache), Some(path("a")));
    cache.insert(path("a"), Arc::new(raster(3, 3)));
    assert_eq!(pass.next_missing(&cache), Some(path("broken")));
    // A broken file is skipped; the second "a" is there already.
    assert_eq!(pass.next_missing(&cache), None);
    assert_eq!(pass.next_missing(&cache), None);
    pass.finish(&mut cache);
    assert_eq!(cache.len(), 2);
    assert!(cache.contains(&path("a")) && cache.contains(&path("b")));
}

#[test]
fn navigation_makes_jobs_with_captions() {
    let mut set = ImageSet::new(vec![path("/d/a.jpg"), path("/d/b.jpg"), path("/d/c.jpg")], 0);
    match nav_request(&mut set, Nav::Next, name_of) {
        Some(Job::Show { path: p, caption }) => {
            assert_eq!(p, path("/d/b.jpg"));
            assert_eq!(caption, Some("(2/3) b.jpg".to_string()));
        },
        _ => panic!("no job"),
    }
    match nav_request(&mut set, Nav::Prev, name_of) {
        Some(Job::Show { path: p, caption }) => {
            assert_eq!(p, path("/d/a.jpg"));
            assert_eq!(caption, Some("(1/3) a.jpg".to_string()));
        },
        _ => panic!("no job"),
    }
    assert!(nav_request(&mut ImageSet::empty(), Nav::Next, name_of).is_none());
    assert!(nav_request(&mut ImageSet::empty(), Nav::Prev, name_of).is_none());
}

#[test]
fn keep_set_is_the_current_image_and_its_neighbors() {
    let set = ImageSet::new(vec![path("a"), path("b"), path("c"), path("d")], 0);
    assert_eq!(keep_set(&set), vec![path("d"), path("a"), path("b")]);
    let one = ImageSet::new(vec![path("a")], 0);
    assert_eq!(keep_set(&one), vec![path("a"), path("a"), path("a")]);
    assert!(keep_set(&ImageSet::empty()).is_empty());
}

#[test]
fn texts_are_put_together() {
    assert_eq!(caption_for(0, 1, "x.png"), "(1/1) x.png");
    assert_eq!(caption_for(9, 1234567890, "\u{e9}.gif"), "(10/1234567890) \u{e9}.gif");
    assert_eq!(caption_for(99, 100, ""), "(100/100) ");
    assert_eq!(caption_for(usize::MAX - 1, usize::MAX, "n"), format!("({}/{}) n", usize::MAX, usize::MAX));
    assert_eq!(failure_message("x.png", "broken"), "Can't display x.png: broken");
}

#[test]
fn worker_shows_turns_and_fails() {
    let mut worker = DecodeWorker::new();
    // Nothing on screen: turning does nothing.
    assert!(worker.step(Shown::Nothing, 1).is_empty());

    // A fresh image is shown upright, then turned by what follows it.
    let base = Arc::new(raster(3, 2));
    let shown = Shown::Base { path: path("a"), base: base.clone(), caption: Some("(1/2) a".to_string()) };
    let updates = worker.step(shown, -1);
    assert_eq!(updates.len(), 2);
    let first = frame(&updates[0]);
    assert!(Arc::ptr_eq(&first.image, &base));
    assert_eq!(first.caption, Some("(1/2) a".to_string()));
    assert_eq!((first.nat_w, first.nat_h, first.rotation_deg), (3, 2, 0));
    let second = frame(&updates[1]);
    assert_eq!(second.image, rotate_turns(&base, 3));
    assert_eq!(second.caption, None);
    assert_eq!((second.nat_w, second.nat_h, second.rotation_deg), (2, 3, 270));

    // A failure leaves the image and its turns alone.
    let updates = worker.step(Shown::Failed { name: "x".to_string(), error: "broken".to_string() }, 2);
    assert_eq!(updates.len(), 1);
    assert!(matches!(&updates[0], Update::Status(text) if text == "Can't display x: broken"));

    // Turns add up from where they were.
    let updates = worker.step(Shown::Nothing, 3);
    assert_eq!(updates.len(), 1);
    assert_eq!(frame(&updates[0]).image, rotate_turns(&base, 2));
    assert_eq!(frame(&updates[0]).rotation_deg, 180);
    assert!(worker.step(Shown::Nothing, 0).is_empty());
    let updates = worker.step(Shown::Nothing, i32::MAX);
    assert_eq!(frame(&updates[0]).rotation_deg, 90);

    // The next image starts upright again.
    let shown = Shown::Base { path: path("b"), base: base.clone(), caption: None };
    let updates = worker.step(shown, 0);
    assert_eq!(updates.len(), 1);
    assert_eq!(frame(&updates[0]).rotation_deg, 0);
    assert_eq!(MAX_DISPLAY_DIM, 4096);
}

#[test]
fn turns_are_countable_as_long_as_their_sum_is() {
    let show = || Job::Show { path: path("/d/a.jpg"), caption: None };
    assert!(is_countable(&Vec::new()));
    assert!(is_countable(&vec![Job::Rotate(i32::MAX), Job::Rotate(-1), Job::Rotate(1)]));
    assert!(!is_countable(&vec![Job::Rotate(i32::MAX), Job::Rotate(1), Job::Rotate(-1)]));
    assert!(!is_countable(&vec![Job::Rotate(i32::MIN), Job::Rotate(-1)]));
    // A new image starts the count again.
    assert!(is_countable(&vec![Job::Rotate(i32::MAX), show(), Job::Rotate(1)]));
    assert!(!is_countable(&vec![show(), Job::Rotate(i32::MAX), Job::Rotate(1), show()]));
}

#[test]
fn a_fresh_image_replaces_the_cached_one() {
    let mut cache = Cache::new();
    let p = path("/d/a.jpg");
    let old = Arc::new(raster(1, 1));
    cache.insert(p.clone(), Arc::clone(&old));
    let fresh = store_base(&mut cache, &p, Ok::<Raster, String>(raster(2, 1))).unwrap();
    assert_eq!(fresh.width(), 2);
    assert!(Arc::ptr_eq(&fresh, &cache.get(&p).unwrap()));
    assert_eq!(store_base(&mut cache, &p, Err("broken".to_string())).unwrap_err(), "broken");
    assert!(Arc::ptr_eq(&fresh, &cache.get(&p).unwrap()));
}

#[test]
fn a_whole_pass_keeps_what_was_cached_or_decodes() {
    let (cached, good, broken, other) = (path("/d/a.jpg"), path("/d/b.jpg"), path("/d/c.jpg"), path("/d/d.jpg"));
    let mut cache = Cache::new();
    let before = Arc::new(raster(1, 1));
    cache.insert(cached.clone(), Arc::clone(&before));
    cache.insert(other.clone(), Arc::new(raster(1, 1)));

    let mut tried = Vec::new();
    let mut pass = Prefetch::new(vec![good.clone(), cached.clone(), broken.clone(), good.clone(), broken.clone()]);
    while let Some(p) = pass.next_missing(&cache) {
        tried.push(name_of(&p));
        let decoded = if p.same_as(&good) { Ok(raster(3, 2)) } else { Err("broken") };
        let _ = store_base(&mut cache, &p, decoded);
    }
    pass.finish(&mut cache);

    assert_eq!(tried, ["b.jpg", "c.jpg", "c.jpg"]);
    assert_eq!(cache.len(), 2);
    assert!(Arc::ptr_eq(&cache.get(&cached).unwrap(), &before));
    assert_eq!(cache.get(&good).unwrap().width(), 3);
    assert!(!cache.contains(&broken));
    assert!(!cache.contains(&other));
}

#[test]
fn no_turn_shares_the_base() {
    let base = Arc::new(raster(2, 3));
    for turns in [0, 4, -4, 8, i32::MIN] {
        assert!(Arc::ptr_eq(&rotate_turns(&base, turns), &base));
    }
    assert!(!Arc::ptr_eq(&rotate_turns(&base, 2), &base));
}

#[test]
fn the_cache_knows_a_path_however_it_is_spelled() {
    let mut cache = Cache::new();
    let base = Arc::new(raster(1, 1));
    cache.insert(path("d/./a.jpg"), Arc::clone(&base));
    for spelling in ["d/a.jpg", "d//a.jpg", "d/././/a.jpg", "d/a.jpg/", "d/a.jpg/."] {
        assert!(Arc::ptr_eq(&cache.get(&path(spelling)).unwrap(), &base), "{spelling}");
    }
    for other in ["./d/a.jpg", "/d/a.jpg", "d/../d/a.jpg", "d/A.jpg", "da.jpg", "d", "", "d/a.jpg/b"] {
        assert!(!cache.contains(&path(other)), "{other}");
    }
    cache.insert(path("d//a.jpg"), Arc::new(raster(2, 1)));
    assert_eq!(cache.len(), 1);
    assert_eq!(cache.get(&path("d/a.jpg")).unwrap().width(), 2);

    let mut pass = Prefetch::new(vec![path("d/a.jpg"), path("d/./b.jpg")]);
    assert_eq!(pass.next_missing(&cache), Some(path("d/./b.jpg")));
    assert_eq!(pass.next_missing(&cache), None);
    pass.finish(&mut cache);
    assert!(cache.contains(&path("d//a.jpg")));
}
