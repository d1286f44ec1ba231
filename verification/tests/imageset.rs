use photoviewer::imageset::ImageSet;
use photoviewer::listing::{is_supported, scan_dir, DirEntry};
use photoviewer::natural::natural_cmp_ci;
use photoviewer::path::{position_of, position_of_key, FilePath};
use std::cmp::Ordering;
use std::path::Path;

fn path(s: &str) -> FilePath {
    FilePath::new(s.as_bytes().to_vec())
}

fn entry(dir: &str, name: &str, is_file: bool) -> DirEntry {
    DirEntry { path: path(&format!("{dir}/{name}")), name: name.to_string(), is_file }
}

fn name_of(p: &FilePath) -> String {
    let text = String::from_utf8(p.as_bytes().to_vec()).unwrap();
    text.rsplit('/').next().unwrap().to_string()
}

#[test]
fn supported_extensions_are_case_insensitive() {
    assert!(is_supported("a.JPG"));
    assert!(is_supported("a.jpeg"));
    assert!(is_supported("a.png"));
    assert!(is_supported("a.WebP"));
    assert!(is_supported("a.gif"));
    assert!(!is_supported("a.txt"));
    assert!(!is_supported("a"));
}

#[test]
fn extension_is_what_follows_the_last_dot() {
    assert!(is_supported("a.b.c.png"));
    assert!(is_supported("..jpg"));
    assert!(!is_supported(".jpg"));
    assert!(!is_supported("a."));
    assert!(!is_supported("a.jpg.txt"));
    assert!(!is_supported("ajpg"));
    assert!(!is_supported("a.xjpg"));
    assert!(!is_supported(""));
    assert!(!is_supported("jpg"));
    assert!(is_supported("\u{e9}.gif"));
    assert!(!is_supported("a.\u{212a}pg"));
}

#[test]
fn extension_matches_the_standard_library() {
    let names = [
        "a.JPG", "a", ".gif", "..gif", "x.webp", "x.webp.", "x..webp", "a.png ", "a. png", "\u{fc}.JpEg",
        "a.jpe", "a.jpegg", "....", "a.b",
    ];
    for name in names {
        let expected = std::path::Path::new(name)
            .extension()
            .and_then(|e| e.to_str())
            .map(|e| ["jpg", "jpeg", "png", "webp", "gif"].contains(&e.to_ascii_lowercase().as_str()))
            .unwrap_or(false);
        assert_eq!(is_supported(name), expected, "{name}");
    }
}

#[test]
fn natural_sort_orders_numbers_numerically_and_ignores_case() {
    let mut v = ["img10.jpg", "img2.jpg", "IMG1.jpg"];
    v.sort_by(|a, b| natural_cmp_ci(a, b));
    assert_eq!(v, ["IMG1.jpg", "img2.jpg", "img10.jpg"]);
}

#[test]
fn natural_order_of_single_pairs() {
    assert_eq!(natural_cmp_ci("img2", "img10"), Ordering::Less);
    assert_eq!(natural_cmp_ci("A", "a"), Ordering::Equal);
    assert_eq!(natural_cmp_ci("", ""), Ordering::Equal);
    assert_eq!(natural_cmp_ci("", "a"), Ordering::Less);
    assert_eq!(natural_cmp_ci("a", ""), Ordering::Greater);
    assert_eq!(natural_cmp_ci("a007", "a7"), Ordering::Equal);
    assert_eq!(natural_cmp_ci("a007b", "a7a"), Ordering::Greater);
    assert_eq!(natural_cmp_ci("a0", "a00"), Ordering::Equal);
    assert_eq!(natural_cmp_ci("a0", "a"), Ordering::Greater);
    assert_eq!(natural_cmp_ci("1", "a"), Ordering::Less);
    assert_eq!(natural_cmp_ci("1", "-"), Ordering::Greater);
    assert_eq!(natural_cmp_ci("a1", "a-"), Ordering::Greater);
    assert_eq!(natural_cmp_ci("a1", "aB"), Ordering::Less);
    assert_eq!(natural_cmp_ci("\u{c9}", "\u{e9}"), Ordering::Less);
    assert_eq!(
        natural_cmp_ci("x99999999999999999999999999999998", "x99999999999999999999999999999999"),
        Ordering::Less
    );
    assert_eq!(natural_cmp_ci("x100000000000000000000000000000000", "x99"), Ordering::Greater);
    assert_eq!(natural_cmp_ci("a1b2", "a1b10"), Ordering::Less);
    assert_eq!(natural_cmp_ci("[", "A"), Ordering::Less);
    assert_eq!(natural_cmp_ci("{", "A"), Ordering::Greater);
}

#[test]
fn natural_order_is_a_preorder_on_samples() {
    let names = ["", "a", "A", "a1", "a01", "a2", "a10", "b", "1", "01", "2", "-", "a-", "a1b", "a1B", "a1c"];
    for a in names {
        assert_eq!(natural_cmp_ci(a, a), Ordering::Equal);
        for b in names {
            assert_eq!(natural_cmp_ci(a, b), natural_cmp_ci(b, a).reverse());
            for c in names {
                if natural_cmp_ci(a, b) != Ordering::Greater && natural_cmp_ci(b, c) != Ordering::Greater {
                    assert_ne!(natural_cmp_ci(a, c), Ordering::Greater);
                }
            }
        }
    }
}

#[test]
fn imageset_next_prev_wrap() {
    let files = vec![path("/d/a.jpg"), path("/d/b.jpg"), path("/d/c.jpg")];
    let mut set = ImageSet::new(files, 0);
    assert_eq!(set.len(), 3);
    assert_eq!(set.current(), Some(path("/d/a.jpg")));
    assert_eq!(set.advance(), Some(path("/d/b.jpg")));
    assert_eq!(set.advance(), Some(path("/d/c.jpg")));
    assert_eq!(set.advance(), Some(path("/d/a.jpg")));
    assert_eq!(set.retreat(), Some(path("/d/c.jpg")));
}

#[test]
fn empty_set_is_safe() {
    let mut set = ImageSet::empty();
    assert!(set.is_empty());
    assert_eq!(set.current(), None);
    assert_eq!(set.advance(), None);
    assert_eq!(set.retreat(), None);
}

#[test]
fn scan_dir_filters_and_sorts_and_from_file_positions() {
    let mut entries = Vec::new();
    for name in ["b2.jpg", "b10.jpg", "a.png", "notes.txt"] {
        entries.push(entry("/tmp/x", name, true));
    }
    let files = scan_dir(&entries);
    let names: Vec<String> = files.iter().map(name_of).collect();
    assert_eq!(names, ["a.png", "b2.jpg", "b10.jpg"]);

    let set = ImageSet::from_file(&path("/tmp/x/b2.jpg"), &entries);
    assert_eq!(set.len(), 3);
    assert_eq!(set.position(), 1);
}

#[test]
fn scan_dir_skips_directories_and_keeps_equal_names_as_found() {
    let entries = vec![
        entry("/d", "z.png", true),
        entry("/d", "album.jpg", false),
        entry("/d", "A.png", true),
        entry("/d", "a.png", true),
        entry("/d", "a01.png", true),
        entry("/d", "a1.png", true),
        entry("/d", "A.PNG", true),
    ];
    let names: Vec<String> = scan_dir(&entries).iter().map(name_of).collect();
    assert_eq!(names, ["A.png", "a.png", "A.PNG", "a01.png", "a1.png", "z.png"]);
}

#[test]
fn scan_dir_sorts_many_files() {
    let mut entries = Vec::new();
    let mut k: usize = 7;
    for _ in 0..1000 {
        entries.push(entry("/d", &format!("img{k}.jpg"), true));
        k = (k + 377) % 1000;
    }
    let names: Vec<String> = scan_dir(&entries).iter().map(name_of).collect();
    let expected: Vec<String> = (0..1000).map(|i| format!("img{i}.jpg")).collect();
    assert_eq!(names, expected);
}

#[test]
fn from_file_falls_back() {
    let set = ImageSet::from_file(&path("/d/only.jpg"), &Vec::new());
    assert_eq!(set.len(), 1);
    assert_eq!(set.current(), Some(path("/d/only.jpg")));

    let entries = vec![entry("/d", "a.jpg", true), entry("/d", "b.jpg", true)];
    let set = ImageSet::from_file(&path("/d/./b.jpg"), &entries);
    assert_eq!(set.len(), 2);
    assert_eq!(set.position(), 0);
}

#[test]
fn start_past_the_end_is_the_last_file() {
    let set = ImageSet::new(vec![path("/d/a.jpg"), path("/d/b.jpg")], 9);
    assert_eq!(set.position(), 1);
    let none = ImageSet::new(Vec::new(), 9);
    assert_eq!(none.position(), 0);
    assert!(none.is_empty());
}

#[test]
fn peek_offsets_wrap_without_moving_the_cursor() {
    let files = vec![path("/d/a.jpg"), path("/d/b.jpg"), path("/d/c.jpg")];
    let set = ImageSet::new(files, 0);
    // peek(0) is the current item.
    assert_eq!(set.peek(0), set.current());
    assert_eq!(set.peek(0), Some(path("/d/a.jpg")));
    // +1 / -1 wrap at both ends, and the cursor does NOT move.
    assert_eq!(set.peek(1), Some(path("/d/b.jpg")));
    assert_eq!(set.peek(-1), Some(path("/d/c.jpg"))); // wraps to the end
    assert_eq!(set.position(), 0, "peek must not move the cursor");

    // From the last item, +1 wraps to the first.
    let set_last = ImageSet::new(vec![path("/d/a.jpg"), path("/d/b.jpg")], 1);
    assert_eq!(set_last.peek(1), Some(path("/d/a.jpg")));
    assert_eq!(set_last.peek(-1), Some(path("/d/a.jpg")));

    // Empty set yields None for any offset.
    let empty = ImageSet::empty();
    assert_eq!(empty.peek(0), None);
    assert_eq!(empty.peek(1), None);
    assert_eq!(empty.peek(-1), None);
}

#[test]
fn peek_far_away() {
    let set = ImageSet::new(vec![path("/d/a.jpg"), path("/d/b.jpg"), path("/d/c.jpg")], 2);
    assert_eq!(set.peek(3), set.current());
    assert_eq!(set.peek(-3), set.current());
    assert_eq!(set.peek(-7), Some(path("/d/b.jpg")));
    let most = (2i128 + isize::MAX as i128).rem_euclid(3) as usize;
    let least = (2i128 + isize::MIN as i128).rem_euclid(3) as usize;
    let names = ["/d/a.jpg", "/d/b.jpg", "/d/c.jpg"];
    assert_eq!(set.peek(isize::MAX), Some(path(names[most])));
    assert_eq!(set.peek(isize::MIN), Some(path(names[least])));
}

#[test]
fn single_image_nav_stays_put() {
    let mut set = ImageSet::new(vec![path("/d/only.jpg")], 0);
    assert_eq!(set.advance(), Some(path("/d/only.jpg"))); // wraps to itself
    assert_eq!(set.retreat(), Some(path("/d/only.jpg")));
    assert_eq!(set.position(), 0);
}

#[test]
fn advance_and_retreat_undo_each_other() {
    let mut set = ImageSet::new(vec![path("/d/a.jpg"), path("/d/b.jpg"), path("/d/c.jpg")], 0);
    for start in 0..3 {
        assert_eq!(set.position(), start);
        set.advance();
        set.retreat();
        assert_eq!(set.position(), start);
        set.retreat();
        set.advance();
        assert_eq!(set.position(), start);
        let ahead = set.peek(1);
        assert_eq!(set.advance(), ahead);
    }
    assert_eq!(set.position(), 0);
}

#[test]
fn positions_are_first_and_byte_exact() {
    let paths = vec![path("a"), path("b"), path("b"), path("B")];
    assert_eq!(position_of(&paths, &path("b")), Some(1));
    assert_eq!(position_of(&paths, &path("B")), Some(3));
    assert_eq!(position_of(&paths, &path("c")), None);
    assert!(path("x").same_as(&path("x").clone()));
    assert!(!path("x").same_as(&path("xy")));
}

#[test]
fn leading_zeros_and_case_do_not_matter() {
    let others = ["IMG2.jpg", "img10.jpg", "img007b.jpg", "img", "imh", "img7", "8"];
    let pairs = [("img7.jpg", "IMG007.jpg"), ("a0b1", "A000b01"), ("7", "07"), ("1-2-3.png", "01-0002-003.PNG")];
    for (plain, padded) in pairs {
        assert_eq!(natural_cmp_ci(plain, padded), Ordering::Equal);
        for other in others {
            assert_eq!(natural_cmp_ci(plain, other), natural_cmp_ci(padded, other));
            assert_eq!(natural_cmp_ci(other, plain), natural_cmp_ci(other, padded));
        }
    }
}

#[test]
fn a_full_round_shows_every_file_once() {
    let files: Vec<FilePath> = ["/d/a.jpg", "/d/b.jpg", "/d/c.jpg", "/d/d.jpg"].map(path).to_vec();
    for start in 0..files.len() {
        let mut forth = ImageSet::new(files.clone(), start);
        let mut back = ImageSet::new(files.clone(), start);
        let mut seen_forth: Vec<String> = files.iter().map(|_| name_of(&forth.advance().unwrap())).collect();
        let mut seen_back: Vec<String> = files.iter().map(|_| name_of(&back.retreat().unwrap())).collect();
        assert_eq!((forth.position(), back.position()), (start, start));
        seen_forth.sort();
        seen_back.sort();
        assert_eq!(seen_forth, ["a.jpg", "b.jpg", "c.jpg", "d.jpg"]);
        assert_eq!(seen_back, seen_forth);
    }
}

#[test]
fn paths_come_down_to_the_same_as_for_the_standard_library() {
    let pieces = ["", ".", "..", "a", "b.jpg", "..."];
    let mut spellings: Vec<String> = Vec::new();
    for first in pieces {
        spellings.push(first.to_string());
        for second in pieces {
            spellings.push(format!("{first}/{second}"));
            for third in pieces {
                spellings.push(format!("{first}/{second}/{third}"));
                spellings.push(format!("/{first}/{second}/{third}"));
            }
        }
    }
    for a in &spellings {
        for b in &spellings {
            let same = Path::new(a) == Path::new(b);
            assert_eq!(path(a).same_key_as(&path(b)), same, "{a} and {b}");
        }
    }
}

#[test]
fn positions_by_key_are_first() {
    let files = vec![path("/d/a.jpg"), path("/d/./b.jpg"), path("/d/b.jpg")];
    assert_eq!(position_of_key(&files, &path("/d//b.jpg")), Some(1));
    assert_eq!(position_of_key(&files, &path("/d/a.jpg/")), Some(0));
    assert_eq!(position_of_key(&files, &path("d/a.jpg")), None);
    assert_eq!(position_of(&files, &path("/d//b.jpg")), None);
}
