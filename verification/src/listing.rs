//! Which files of a directory are shown, and in which order.

use crate::natural::{compare_names, Order};
use crate::path::FilePath;
use crate::text::{chars_of, lower_code};
use vstd::prelude::*;

verus! {

/// What is known of one entry of a directory.
#[derive(Debug)]
pub struct DirEntry {
    pub path: FilePath,
    /// The last component of the path.
    pub name: String,
    pub is_file: bool,
}

/// The extensions of the formats that can be shown, in lower case.
pub open spec fn supported_extensions() -> Seq<Seq<char>> {
    seq!["jpg"@, "jpeg"@, "png"@, "webp"@, "gif"@]
}

/// The name is something, a dot, and the extension in any case.
pub open spec fn ends_in(name: Seq<char>, extension: Seq<char>) -> bool {
    let dot = name.len() - extension.len() - 1;
    &&& dot > 0
    &&& name[dot] == '.'
    &&& forall|k: int|
        0 <= k < extension.len() ==> crate::text::lower(name[dot + 1 + k])
            == #[trigger] extension[k]
}

/// The name has a supported extension.
pub open spec fn supported(name: Seq<char>) -> bool {
    exists|k: int|
        0 <= k < supported_extensions().len() && ends_in(
            name,
            #[trigger] supported_extensions()[k],
        )
}

fn has_extension(name: &Vec<char>, extension: &str) -> (r: bool)
    requires
        forall|k: int|
            0 <= k < extension@.len() ==> crate::text::lower(#[trigger] extension@[k])
                == extension@[k],
    ensures
        r == ends_in(name@, extension@),
{
    let tail = chars_of(extension);
    if name.len() < 2 || name.len() - 2 < tail.len() {
        return false;
    }
    let dot: usize = name.len() - tail.len() - 1;
    if name[dot] != '.' {
        return false;
    }
    let mut k: usize = 0;
    while k < tail.len()
        invariant
            k <= tail.len(),
            tail@ == extension@,
            dot + 1 + tail.len() == name.len(),
            forall|i: int|
                0 <= i < extension@.len() ==> crate::text::lower(#[trigger] extension@[i])
                    == extension@[i],
            forall|i: int|
                0 <= i < k ==> crate::text::lower(name@[dot + 1 + i]) == #[trigger] extension@[i],
        decreases tail.len() - k,
    {
        assert(extension@[k as int] == tail@[k as int]);
        if lower_code(name[dot + 1 + k]) != lower_code(tail[k]) {
            return false;
        }
        k = k + 1;
    }
    true
}

/// True if the file name has a supported image extension (case-insensitive).
pub fn is_supported(name: &str) -> (r: bool)
    ensures
        r == supported(name@),
{
    let chars = chars_of(name);
    proof {
        reveal_strlit("jpg");
        reveal_strlit("jpeg");
        reveal_strlit("png");
        reveal_strlit("webp");
        reveal_strlit("gif");
        let all = supported_extensions();
        assert(all[0] == "jpg"@);
        assert(all[1] == "jpeg"@);
        assert(all[2] == "png"@);
        assert(all[3] == "webp"@);
        assert(all[4] == "gif"@);
    }
    has_extension(&chars, "jpg") || has_extension(&chars, "jpeg") || has_extension(&chars, "png")
        || has_extension(&chars, "webp") || has_extension(&chars, "gif")
}

/// An entry that is shown: a file with a supported extension.
pub open spec fn shown(entry: DirEntry) -> bool {
    entry.is_file && supported(entry.name@)
}

/// The entry at `a` comes before the entry at `b`: by the natural order of the names, and
/// as found where those are equal.
pub open spec fn precedes(entries: Seq<DirEntry>, a: int, b: int) -> bool {
    match crate::natural::natural_order(entries[a].name@, entries[b].name@) {
        Order::Less => true,
        Order::Equal => a < b,
        Order::Greater => false,
    }
}

/// Each position comes before all later ones.
pub open spec fn in_order(entries: Seq<DirEntry>, order: Seq<int>) -> bool {
    forall|i: int, j: int|
        0 <= i < j < order.len() ==> precedes(entries, #[trigger] order[i], #[trigger] order[j])
}

/// The positions of exactly the entries that are shown, in order.
pub open spec fn is_listing(entries: Seq<DirEntry>, order: Seq<int>) -> bool {
    &&& forall|k: int|
        #[trigger] order.contains(k) <==> 0 <= k < entries.len() && shown(entries[k])
    &&& in_order(entries, order)
}

/// The paths at the given positions.
pub open spec fn paths_at(entries: Seq<DirEntry>, order: Seq<int>) -> Seq<Seq<u8>> {
    Seq::new(order.len(), |i: int| entries[order[i]].path@)
}

/// The order in which the entries are shown.
pub open spec fn listing_order(entries: Seq<DirEntry>) -> Seq<int> {
    choose|order: Seq<int>| is_listing(entries, order)
}

/// The paths of the entries that are shown, in order.
pub open spec fn listing(entries: Seq<DirEntry>) -> Seq<Seq<u8>> {
    paths_at(entries, listing_order(entries))
}

proof fn lemma_precedes_is_strict(entries: Seq<DirEntry>, a: int, b: int)
    ensures
        !precedes(entries, a, a),
        a != b ==> (precedes(entries, a, b) <==> !precedes(entries, b, a)),
{
    crate::natural::law_order_is_reflexive(entries[a].name@);
    crate::natural::law_order_reverses(entries[a].name@, entries[b].name@);
}

proof fn lemma_precedes_is_transitive(entries: Seq<DirEntry>, a: int, b: int, c: int)
    requires
        precedes(entries, a, b),
        precedes(entries, b, c),
    ensures
        precedes(entries, a, c),
{
    crate::natural::law_order_is_transitive(
        entries[a].name@,
        entries[b].name@,
        entries[c].name@,
    );
}

/// An order leaves no choice: of two listings of the same entries, each position holds the
/// same entry.
pub proof fn law_listing_is_unique(entries: Seq<DirEntry>, one: Seq<int>, other: Seq<int>)
    requires
        is_listing(entries, one),
        is_listing(entries, other),
    ensures
        one == other,
{
    lemma_same_members_same_order(entries, one, other);
}

proof fn lemma_same_members_same_order(entries: Seq<DirEntry>, one: Seq<int>, other: Seq<int>)
    requires
        in_order(entries, one),
        in_order(entries, other),
        forall|k: int| #[trigger] one.contains(k) <==> other.contains(k),
    ensures
        one == other,
    decreases one.len(),
{
    if one.len() == 0 {
        if other.len() > 0 {
            assert(other.contains(other[0]));
            assert(!one.contains(other[0]));
        }
        assert(one =~= other);
    } else {
        assert(one.contains(one[0]));
        assert(other.contains(one[0]));
        assert(other.contains(other[0]));
        assert(one.contains(other[0]));
        let i = choose|i: int| 0 <= i < other.len() && other[i] == one[0];
        let j = choose|j: int| 0 <= j < one.len() && one[j] == other[0];
        if i > 0 && j > 0 {
            assert(precedes(entries, other[0], other[i]));
            assert(precedes(entries, one[0], one[j]));
            lemma_precedes_is_strict(entries, one[0], other[0]);
            lemma_precedes_is_strict(entries, one[0], one[0]);
        }
        assert(one[0] == other[0]);
        let one_rest = one.skip(1);
        let other_rest = other.skip(1);
        assert(in_order(entries, one_rest));
        assert(in_order(entries, other_rest));
        assert forall|k: int| #[trigger] one_rest.contains(k) <==> other_rest.contains(k) by {
            lemma_rest_contains(entries, one, k);
            lemma_rest_contains(entries, other, k);
            assert(one.contains(k) <==> other.contains(k));
        }
        lemma_same_members_same_order(entries, one_rest, other_rest);
        assert(one =~= seq![one[0]] + one_rest);
        assert(other =~= seq![other[0]] + other_rest);
    }
}

proof fn lemma_rest_contains(entries: Seq<DirEntry>, order: Seq<int>, k: int)
    requires
        in_order(entries, order),
        order.len() > 0,
    ensures
        order.skip(1).contains(k) <==> order.contains(k) && k != order[0],
{
    let rest = order.skip(1);
    if rest.contains(k) {
        let i = choose|i: int| 0 <= i < rest.len() && rest[i] == k;
        assert(order[i + 1] == k);
        assert(precedes(entries, order[0], order[i + 1]));
        lemma_precedes_is_strict(entries, k, k);
    }
    if order.contains(k) && k != order[0] {
        let i = choose|i: int| 0 <= i < order.len() && order[i] == k;
        assert(rest[i - 1] == k);
    }
}

/// Positions as integers.
spec fn ints(v: Seq<usize>) -> Seq<int> {
    Seq::new(v.len(), |i: int| v[i] as int)
}

/// Each position is in range, and below all later ones.
spec fn ascending(entries: Seq<DirEntry>, v: Seq<usize>) -> bool {
    &&& forall|i: int| 0 <= i < v.len() ==> #[trigger] v[i] < entries.len()
    &&& forall|i: int, j: int| 0 <= i < j < v.len() ==> #[trigger] v[i] < #[trigger] v[j]
}

/// Merges two ordered rows of positions of which all in the first are below all in the
/// second.
#[verifier::spinoff_prover]
fn merge(entries: &Vec<DirEntry>, a: &Vec<usize>, b: &Vec<usize>) -> (out: Vec<usize>)
    requires
        in_order(entries@, ints(a@)),
        in_order(entries@, ints(b@)),
        forall|i: int| 0 <= i < a.len() ==> #[trigger] a@[i] < entries.len(),
        forall|i: int| 0 <= i < b.len() ==> #[trigger] b@[i] < entries.len(),
        forall|i: int, j: int|
            0 <= i < a.len() && 0 <= j < b.len() ==> #[trigger] a@[i] < #[trigger] b@[j],
    ensures
        in_order(entries@, ints(out@)),
        forall|i: int| 0 <= i < out.len() ==> #[trigger] out@[i] < entries.len(),
        forall|x: usize| #[trigger] out@.contains(x) <==> a@.contains(x) || b@.contains(x),
{
    let mut out: Vec<usize> = Vec::new();
    let mut i: usize = 0;
    let mut j: usize = 0;
    while i < a.len() || j < b.len()
        invariant
            i <= a.len(),
            j <= b.len(),
            in_order(entries@, ints(a@)),
            in_order(entries@, ints(b@)),
            forall|i: int| 0 <= i < a.len() ==> #[trigger] a@[i] < entries.len(),
            forall|i: int| 0 <= i < b.len() ==> #[trigger] b@[i] < entries.len(),
            forall|i: int, j: int|
                0 <= i < a.len() && 0 <= j < b.len() ==> #[trigger] a@[i] < #[trigger] b@[j],
            in_order(entries@, ints(out@)),
            forall|i: int| 0 <= i < out.len() ==> #[trigger] out@[i] < entries.len(),
            forall|p: int, q: int|
                0 <= p < out.len() && i <= q < a.len() ==> precedes(
                    entries@,
                    #[trigger] out@[p] as int,
                    #[trigger] a@[q] as int,
                ),
            forall|p: int, q: int|
                0 <= p < out.len() && j <= q < b.len() ==> precedes(
                    entries@,
                    #[trigger] out@[p] as int,
                    #[trigger] b@[q] as int,
                ),
            forall|x: usize|
                #[trigger] out@.contains(x) <==> a@.take(i as int).contains(x) || b@.take(
                    j as int,
                ).contains(x),
        decreases a.len() - i + b.len() - j,
    {
        let from_a: bool = if i == a.len() {
            false
        } else if j == b.len() {
            true
        } else {
            match compare_names(entries[a[i]].name.as_str(), entries[b[j]].name.as_str()) {
                Order::Greater => false,
                _ => true,
            }
        };
        let ghost before = out@;
        proof {
            assert(ints(a@).len() == a@.len());
            assert(ints(b@).len() == b@.len());
            if i < a.len() && j < b.len() {
                lemma_precedes_is_strict(entries@, a@[i as int] as int, b@[j as int] as int);
            }
        }
        let x: usize = if from_a {
            proof {
                assert forall|q: int| j <= q < b.len() implies precedes(
                    entries@,
                    a@[i as int] as int,
                    #[trigger] b@[q] as int,
                ) by {
                    if q > j {
                        assert(precedes(entries@, ints(b@)[j as int], ints(b@)[q]));
                        lemma_precedes_is_transitive(
                            entries@,
                            a@[i as int] as int,
                            b@[j as int] as int,
                            b@[q] as int,
                        );
                    }
                }
                assert forall|q: int| i < q < a.len() implies precedes(
                    entries@,
                    a@[i as int] as int,
                    #[trigger] a@[q] as int,
                ) by {
                    assert(precedes(entries@, ints(a@)[i as int], ints(a@)[q]));
                }
                lemma_take_one_more(a@, i as int);
            }
            i = i + 1;
            a[i - 1]
        } else {
            proof {
                assert forall|q: int| i <= q < a.len() implies precedes(
                    entries@,
                    b@[j as int] as int,
                    #[trigger] a@[q] as int,
                ) by {
                    if q > i {
                        assert(precedes(entries@, ints(a@)[i as int], ints(a@)[q]));
                        lemma_precedes_is_transitive(
                            entries@,
                            b@[j as int] as int,
                            a@[i as int] as int,
                            a@[q] as int,
                        );
                    }
                }
                assert forall|q: int| j < q < b.len() implies precedes(
                    entries@,
                    b@[j as int] as int,
                    #[trigger] b@[q] as int,
                ) by {
                    assert(precedes(entries@, ints(b@)[j as int], ints(b@)[q]));
                }
                lemma_take_one_more(b@, j as int);
            }
            j = j + 1;
            b[j - 1]
        };
        out.push(x);
        proof {
            lemma_push_contains(before, x);
            assert forall|p: int, q: int| 0 <= p < q < ints(out@).len() implies precedes(
                entries@,
                #[trigger] ints(out@)[p],
                #[trigger] ints(out@)[q],
            ) by {
                if q < before.len() {
                    assert(precedes(entries@, ints(before)[p], ints(before)[q]));
                }
            }
        }
    }
    proof {
        assert(a@.take(i as int) =~= a@);
        assert(b@.take(j as int) =~= b@);
    }
    out
}

proof fn lemma_take_one_more(s: Seq<usize>, i: int)
    requires
        0 <= i < s.len(),
    ensures
        forall|x: usize|
            #[trigger] s.take(i + 1).contains(x) <==> s.take(i).contains(x) || x == s[i],
{
    assert(s.take(i + 1) =~= s.take(i).push(s[i]));
    lemma_push_contains(s.take(i), s[i]);
}

proof fn lemma_push_contains(s: Seq<usize>, y: usize)
    ensures
        forall|x: usize| #[trigger] s.push(y).contains(x) <==> s.contains(x) || x == y,
{
    let t = s.push(y);
    assert forall|x: usize| #[trigger] t.contains(x) <==> s.contains(x) || x == y by {
        if s.contains(x) {
            let i = choose|i: int| 0 <= i < s.len() && s[i] == x;
            assert(t[i] == x);
        }
        if x == y {
            assert(t[s.len() as int] == x);
        }
    }
}

/// Brings the positions from `from` up to `to` of an ascending row in order.
fn sort_range(entries: &Vec<DirEntry>, found: &Vec<usize>, from: usize, to: usize) -> (out: Vec<
    usize,
>)
    requires
        ascending(entries@, found@),
        from <= to <= found.len(),
    ensures
        in_order(entries@, ints(out@)),
        forall|i: int| 0 <= i < out.len() ==> #[trigger] out@[i] < entries.len(),
        forall|x: usize|
            #[trigger] out@.contains(x) <==> found@.subrange(from as int, to as int).contains(x),
    decreases to - from,
{
    let ghost part = found@.subrange(from as int, to as int);
    if to - from == 0 {
        let out: Vec<usize> = Vec::new();
        assert(out@ =~= part);
        out
    } else if to - from == 1 {
        let mut out: Vec<usize> = Vec::new();
        out.push(found[from]);
        assert(out@ =~= part);
        out
    } else {
        let middle: usize = from + (to - from) / 2;
        let a = sort_range(entries, found, from, middle);
        let b = sort_range(entries, found, middle, to);
        let ghost left = found@.subrange(from as int, middle as int);
        let ghost right = found@.subrange(middle as int, to as int);
        proof {
            assert forall|i: int, j: int| 0 <= i < a.len() && 0 <= j < b.len() implies
                #[trigger] a@[i] < #[trigger] b@[j] by {
                assert(a@.contains(a@[i]));
                assert(b@.contains(b@[j]));
                let p = choose|p: int| 0 <= p < left.len() && left[p] == a@[i];
                let q = choose|q: int| 0 <= q < right.len() && right[q] == b@[j];
                assert(found@[from + p] < found@[middle + q]);
            }
            assert forall|x: usize| #[trigger] part.contains(x) <==> left.contains(x)
                || right.contains(x) by {
                if left.contains(x) {
                    let p = choose|p: int| 0 <= p < left.len() && left[p] == x;
                    assert(part[p] == x);
                }
                if right.contains(x) {
                    let q = choose|q: int| 0 <= q < right.len() && right[q] == x;
                    assert(part[middle - from + q] == x);
                }
                if part.contains(x) {
                    let p = choose|p: int| 0 <= p < part.len() && part[p] == x;
                    if p < middle - from {
                        assert(left[p] == x);
                    } else {
                        assert(right[p - (middle - from)] == x);
                    }
                }
            }
        }
        merge(entries, &a, &b)
    }
}

/// All supported image files among the entries of a directory, natural-sorted by file
/// name. Names that compare equal stay as found.
pub fn scan_dir(entries: &Vec<DirEntry>) -> (files: Vec<FilePath>)
    ensures
        is_listing(entries@, listing_order(entries@)),
        crate::path::views(files@) == listing(entries@),
{
    let mut found: Vec<usize> = Vec::new();
    let mut k: usize = 0;
    while k < entries.len()
        invariant
            k <= entries.len(),
            ascending(entries@, found@),
            forall|i: int| 0 <= i < found.len() ==> #[trigger] found@[i] < k,
            forall|x: usize|
                #[trigger] found@.contains(x) <==> x < k && shown(entries@[x as int]),
        decreases entries.len() - k,
    {
        if entries[k].is_file && is_supported(entries[k].name.as_str()) {
            proof {
                lemma_push_contains(found@, k);
            }
            found.push(k);
        }
        k = k + 1;
    }
    let sorted = sort_range(entries, &found, 0, found.len());
    proof {
        assert(found@.subrange(0, found@.len() as int) =~= found@);
        let order = ints(sorted@);
        assert forall|k: int| #[trigger] order.contains(k) <==> 0 <= k < entries.len() && shown(
            entries@[k],
        ) by {
            if order.contains(k) {
                let i = choose|i: int| 0 <= i < order.len() && order[i] == k;
                assert(sorted@.contains(sorted@[i]));
                assert(found@.contains(sorted@[i]));
            }
            if 0 <= k < entries.len() && shown(entries@[k]) {
                assert(found@.contains(k as usize));
                assert(sorted@.contains(k as usize));
                let i = choose|i: int| 0 <= i < sorted@.len() && sorted@[i] == k as usize;
                assert(order[i] == k);
            }
        }
        assert(is_listing(entries@, order));
        law_listing_is_unique(entries@, listing_order(entries@), order);
    }
    let mut files: Vec<FilePath> = Vec::new();
    let mut i: usize = 0;
    while i < sorted.len()
        invariant
            i <= sorted.len(),
            files.len() == i,
            forall|k: int| 0 <= k < sorted.len() ==> #[trigger] sorted@[k] < entries.len(),
            forall|k: int|
                0 <= k < i ==> (#[trigger] files@[k])@ == entries@[sorted@[k] as int].path@,
        decreases sorted.len() - i,
    {
        files.push(entries[sorted[i]].path.clone());
        i = i + 1;
    }
    assert(crate::path::views(files@) =~= listing(entries@));
    files
}

/// Behind something and a dot, the name ends in these characters, case aside.
pub open spec fn has_tail(name: Seq<char>, tail: Seq<char>) -> bool {
    &&& name.len() >= tail.len() + 2
    &&& name[name.len() - tail.len() - 1] == '.'
    &&& forall|k: int|
        0 <= k < tail.len() ==> crate::natural::caseless_code(
            name[name.len() - tail.len() + k],
        ) == #[trigger] tail[k] as int
}

/// A file is an image by its name if that ends in one of five extensions, in any case, with
/// something before the dot.
pub proof fn law_images_are_told_by_their_extension(name: &str, r: bool)
    requires
        call_ensures(is_supported, (name,), r),
    ensures
        r <==> {
            ||| has_tail(name@, seq!['j', 'p', 'g'])
            ||| has_tail(name@, seq!['j', 'p', 'e', 'g'])
            ||| has_tail(name@, seq!['p', 'n', 'g'])
            ||| has_tail(name@, seq!['w', 'e', 'b', 'p'])
            ||| has_tail(name@, seq!['g', 'i', 'f'])
        },
        r == supported(name@),
{
    reveal_strlit("jpg");
    reveal_strlit("jpeg");
    reveal_strlit("png");
    reveal_strlit("webp");
    reveal_strlit("gif");
    let all = supported_extensions();
    assert("jpg"@ =~= seq!['j', 'p', 'g']);
    assert("jpeg"@ =~= seq!['j', 'p', 'e', 'g']);
    assert("png"@ =~= seq!['p', 'n', 'g']);
    assert("webp"@ =~= seq!['w', 'e', 'b', 'p']);
    assert("gif"@ =~= seq!['g', 'i', 'f']);
    assert(all[0] == "jpg"@ && all[1] == "jpeg"@ && all[2] == "png"@ && all[3] == "webp"@ && all[4]
        == "gif"@);
    lemma_tails(name@, "jpg"@);
    lemma_tails(name@, "jpeg"@);
    lemma_tails(name@, "png"@);
    lemma_tails(name@, "webp"@);
    lemma_tails(name@, "gif"@);
}

proof fn lemma_tails(name: Seq<char>, tail: Seq<char>)
    ensures
        ends_in(name, tail) <==> has_tail(name, tail),
{
    let dot = name.len() - tail.len() - 1;
    assert(dot + 1 == name.len() - tail.len());
    if ends_in(name, tail) {
        assert forall|k: int| 0 <= k < tail.len() implies crate::natural::caseless_code(
            name[name.len() - tail.len() + k],
        ) == #[trigger] tail[k] as int by {
            assert(crate::text::lower(name[dot + 1 + k]) == tail[k]);
        }
    }
    if has_tail(name, tail) {
        assert forall|k: int| 0 <= k < tail.len() implies crate::text::lower(name[dot + 1 + k])
            == #[trigger] tail[k] by {
            assert(crate::natural::caseless_code(name[name.len() - tail.len() + k])
                == tail[k] as int);
        }
    }
}

/// The files are the paths of the entries at these positions: those that are files and
/// images by their names, each once, by the natural order of their names, and as they were
/// found where names are equal.
pub open spec fn lists(
    entries: Seq<DirEntry>,
    positions: Seq<int>,
    files: Seq<FilePath>,
) -> bool {
    &&& files.len() == positions.len()
    &&& forall|i: int|
        0 <= i < positions.len() ==> {
            let k = #[trigger] positions[i];
            &&& 0 <= k < entries.len()
            &&& files[i]@ == entries[k].path@
            &&& entries[k].is_file
            &&& supported(entries[k].name@)
        }
    &&& forall|k: int|
        0 <= k < entries.len() && (#[trigger] entries[k]).is_file && supported(entries[k].name@)
            ==> positions.contains(k)
    &&& forall|i: int, j: int|
        0 <= i < j < positions.len() ==> {
            let (a, b) = (#[trigger] positions[i], #[trigger] positions[j]);
            let order = crate::natural::natural_order(entries[a].name@, entries[b].name@);
            order == Order::Less || (order == Order::Equal && a < b)
        }
}

/// A directory is listed in natural order: all its images, nothing else, none twice.
pub proof fn law_directory_is_listed(entries: &Vec<DirEntry>, files: Vec<FilePath>)
    requires
        call_ensures(scan_dir, (entries,), files),
    ensures
        exists|positions: Seq<int>| #[trigger] lists(entries@, positions, files@),
{
    let order = listing_order(entries@);
    assert(crate::path::views(files@).len() == files@.len());
    assert forall|i: int| 0 <= i < order.len() implies {
        let k = #[trigger] order[i];
        &&& 0 <= k < entries@.len()
        &&& files@[i]@ == entries@[k].path@
        &&& entries@[k].is_file
        &&& supported(entries@[k].name@)
    } by {
        assert(order.contains(order[i]));
        assert(crate::path::views(files@)[i] == listing(entries@)[i]);
    }
    assert forall|k: int|
        0 <= k < entries@.len() && (#[trigger] entries@[k]).is_file && supported(entries@[k].name@)
        implies order.contains(k) by {
        assert(shown(entries@[k]));
    }
    assert(lists(entries@, order, files@));
}

} // verus!
