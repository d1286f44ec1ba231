//! Paths as bytes, and the components that they name a file by.

use vstd::prelude::*;

verus! {

/// The byte between two components.
pub const SLASH: u8 = 0x2f;

/// The byte that stands for the directory itself where it is a whole component.
pub const DOT: u8 = 0x2e;

/// Where a path starts.
#[derive(Clone, Copy, Debug, PartialEq, Eq, Structural)]
pub enum PathStart {
    /// At the root.
    Root,
    /// At the current directory, said by a dot.
    Here,
    /// At the current directory, unsaid.
    Unsaid,
}

/// What a path comes down to: where it starts, and the names on the way. Nothing is resolved,
/// so a name may be `..`.
#[verifier::ext_equal]
pub struct PathKey {
    pub start: PathStart,
    pub names: Seq<Seq<u8>>,
}

/// The number of bytes before the first separator.
pub open spec fn piece_len(path: Seq<u8>) -> nat
    decreases path.len(),
{
    if path.len() == 0 || path[0] == SLASH {
        0
    } else {
        1 + piece_len(path.skip(1))
    }
}

/// A piece that counts: neither nothing, as between two separators in a row, nor a dot.
pub open spec fn is_name(piece: Seq<u8>) -> bool {
    piece.len() > 0 && piece != seq![DOT]
}

/// The piece, if it counts.
pub open spec fn name_in(piece: Seq<u8>) -> Seq<Seq<u8>> {
    if is_name(piece) {
        seq![piece]
    } else {
        seq![]
    }
}

/// The names between the separators.
pub open spec fn names(path: Seq<u8>) -> Seq<Seq<u8>>
    decreases path.len(),
{
    let n = piece_len(path) as int;
    if 0 <= n < path.len() {
        name_in(path.take(n)) + names(path.skip(n + 1))
    } else {
        name_in(path)
    }
}

pub open spec fn start(path: Seq<u8>) -> PathStart {
    if path.len() > 0 && path[0] == SLASH {
        PathStart::Root
    } else if path.take(piece_len(path) as int) == seq![DOT] {
        PathStart::Here
    } else {
        PathStart::Unsaid
    }
}

pub open spec fn key_of(path: Seq<u8>) -> PathKey {
    PathKey { start: start(path), names: names(path) }
}

/// What each path comes down to.
pub open spec fn keys_of(paths: Seq<Seq<u8>>) -> Seq<PathKey> {
    Seq::new(paths.len(), |i: int| key_of(paths[i]))
}

proof fn lemma_piece_len(path: Seq<u8>)
    ensures
        piece_len(path) <= path.len(),
        forall|k: int| 0 <= k < piece_len(path) ==> #[trigger] path[k] != SLASH,
        piece_len(path) < path.len() ==> path[piece_len(path) as int] == SLASH,
    decreases path.len(),
{
    if path.len() > 0 && path[0] != SLASH {
        lemma_piece_len(path.skip(1));
        assert forall|k: int| 0 <= k < piece_len(path) implies #[trigger] path[k] != SLASH by {
            if k > 0 {
                assert(path[k] == path.skip(1)[k - 1]);
            }
        }
    }
}

/// Where the first separator is.
proof fn lemma_piece_len_is(path: Seq<u8>, n: int)
    requires
        0 <= n <= path.len(),
        forall|k: int| 0 <= k < n ==> #[trigger] path[k] != SLASH,
        n < path.len() ==> path[n] == SLASH,
    ensures
        piece_len(path) == n,
{
    lemma_piece_len(path);
    let m = piece_len(path) as int;
    if m < n {
        assert(path[m] != SLASH);
    }
    if n < m {
        assert(path[n] != SLASH);
    }
}

/// The path of a file. It is kept byte by byte as it came.
#[derive(Debug, PartialEq, Eq)]
pub struct FilePath {
    bytes: Vec<u8>,
}

impl View for FilePath {
    type V = Seq<u8>;

    closed spec fn view(&self) -> Seq<u8> {
        self.bytes@
    }
}

impl Clone for FilePath {
    fn clone(&self) -> (r: FilePath)
        ensures
            r@ == self@,
    {
        let bytes = self.bytes.clone();
        assert(bytes@ =~= self.bytes@);
        FilePath { bytes }
    }
}

impl FilePath {
    pub fn new(bytes: Vec<u8>) -> (r: FilePath)
        ensures
            r@ == bytes@,
    {
        FilePath { bytes }
    }

    pub fn as_bytes(&self) -> (r: &[u8])
        ensures
            r@ == self@,
    {
        self.bytes.as_slice()
    }

    /// What the path comes down to.
    pub open spec fn key(&self) -> PathKey {
        key_of(self@)
    }

    /// Whether the bytes are the same.
    pub fn same_as(&self, other: &FilePath) -> (r: bool)
        ensures
            r == (self@ == other@),
    {
        same_bytes(&self.bytes, 0, self.bytes.len(), &other.bytes, 0, other.bytes.len())
    }

    /// Whether both come down to the same: separators in a row, separators at the end and
    /// dots do not matter, except for a dot at the start.
    pub fn same_key_as(&self, other: &FilePath) -> (r: bool)
        ensures
            r == (self.key() == other.key()),
    {
        if start_of(&self.bytes) != start_of(&other.bytes) {
            return false;
        }
        same_names(&self.bytes, &other.bytes)
    }
}

/// Whether two rows of bytes are the same.
fn same_bytes(
    x: &Vec<u8>,
    x_from: usize,
    x_end: usize,
    y: &Vec<u8>,
    y_from: usize,
    y_end: usize,
) -> (r: bool)
    requires
        x_from <= x_end <= x.len(),
        y_from <= y_end <= y.len(),
    ensures
        r == (x@.subrange(x_from as int, x_end as int) == y@.subrange(
            y_from as int,
            y_end as int,
        )),
        x_from == 0 && x_end == x.len() && y_from == 0 && y_end == y.len() ==> r == (x@ == y@),
{
    let ghost a = x@.subrange(x_from as int, x_end as int);
    let ghost b = y@.subrange(y_from as int, y_end as int);
    proof {
        assert(x@.subrange(0, x@.len() as int) =~= x@);
        assert(y@.subrange(0, y@.len() as int) =~= y@);
    }
    if x_end - x_from != y_end - y_from {
        assert(a.len() != b.len());
        return false;
    }
    let mut i: usize = 0;
    while i < x_end - x_from
        invariant
            x_from <= x_end <= x.len(),
            y_from <= y_end <= y.len(),
            x_end - x_from == y_end - y_from,
            i <= x_end - x_from,
            a == x@.subrange(x_from as int, x_end as int),
            b == y@.subrange(y_from as int, y_end as int),
            forall|k: int| 0 <= k < i ==> a[k] == b[k],
        decreases x_end - x_from - i,
    {
        if x[x_from + i] != y[y_from + i] {
            assert(a[i as int] != b[i as int]);
            return false;
        }
        i = i + 1;
    }
    assert(a =~= b);
    true
}

/// Where the piece that starts at `from` ends.
fn piece_end(bytes: &Vec<u8>, from: usize) -> (end: usize)
    requires
        from <= bytes.len(),
    ensures
        from <= end <= bytes.len(),
        piece_len(bytes@.skip(from as int)) == end - from,
{
    let mut end: usize = from;
    while end < bytes.len() && bytes[end] != SLASH
        invariant
            from <= end <= bytes.len(),
            forall|k: int| from <= k < end ==> #[trigger] bytes@[k] != SLASH,
        decreases bytes.len() - end,
    {
        end = end + 1;
    }
    proof {
        let rest = bytes@.skip(from as int);
        assert forall|k: int| 0 <= k < end - from implies #[trigger] rest[k] != SLASH by {
            assert(rest[k] == bytes@[from + k]);
        }
        lemma_piece_len_is(rest, end - from);
    }
    end
}

fn start_of(bytes: &Vec<u8>) -> (r: PathStart)
    ensures
        r == start(bytes@),
{
    if bytes.len() > 0 && bytes[0] == SLASH {
        return PathStart::Root;
    }
    let end = piece_end(bytes, 0);
    let ghost piece = bytes@.take(end as int);
    proof {
        assert(bytes@.skip(0) =~= bytes@);
        if piece.len() == 1 {
            assert(piece =~= seq![piece[0]]);
            assert(seq![DOT][0] == DOT);
        } else {
            assert(seq![DOT].len() == 1);
        }
    }
    if end == 1 && bytes[0] == DOT {
        PathStart::Here
    } else {
        PathStart::Unsaid
    }
}

/// The bounds of the first name from a position on, if there is one, and where to go on
/// after it.
fn next_name(bytes: &Vec<u8>, from: usize) -> (r: Option<(usize, usize, usize)>)
    requires
        from <= bytes.len(),
    ensures
        match r {
            Some((begin, end, next)) => {
                &&& from <= begin < end <= next <= bytes.len()
                &&& names(bytes@.skip(from as int)) == seq![
                    bytes@.subrange(begin as int, end as int),
                ] + names(bytes@.skip(next as int))
            },
            None => names(bytes@.skip(from as int)).len() == 0,
        },
{
    let mut at: usize = from;
    loop
        invariant
            from <= at <= bytes.len(),
            names(bytes@.skip(from as int)) == names(bytes@.skip(at as int)),
        decreases bytes.len() - at,
    {
        let end = piece_end(bytes, at);
        let ghost rest = bytes@.skip(at as int);
        let ghost piece = bytes@.subrange(at as int, end as int);
        proof {
            assert(rest.take(end - at) =~= piece);
            if end < bytes.len() {
                assert(rest.skip(end - at + 1) =~= bytes@.skip(end + 1));
            }
            assert(end == bytes.len() ==> rest =~= piece);
            if piece.len() == 1 {
                assert(piece =~= seq![piece[0]]);
                assert(seq![DOT][0] == DOT);
            } else {
                assert(seq![DOT].len() == 1);
            }
        }
        let skipped: bool = end == at || (end - at == 1 && bytes[at] == DOT);
        assert(skipped == !is_name(piece));
        if !skipped {
            let next: usize = if end < bytes.len() {
                end + 1
            } else {
                end
            };
            proof {
                if end == bytes.len() {
                    assert(bytes@.skip(end as int) =~= Seq::<u8>::empty());
                    lemma_no_names();
                    assert(names(rest) =~= seq![piece] + names(bytes@.skip(next as int)));
                }
            }
            return Some((at, end, next));
        }
        if end == bytes.len() {
            return None;
        }
        assert(names(rest) =~= names(bytes@.skip(end + 1)));
        at = end + 1;
    }
}

proof fn lemma_no_names()
    ensures
        names(Seq::empty()) == Seq::<Seq<u8>>::empty(),
{
}

/// Whether two paths have the same names.
fn same_names(x: &Vec<u8>, y: &Vec<u8>) -> (r: bool)
    ensures
        r == (names(x@) == names(y@)),
{
    let mut i: usize = 0;
    let mut j: usize = 0;
    assert(x@.skip(0) =~= x@);
    assert(y@.skip(0) =~= y@);
    loop
        invariant
            i <= x.len(),
            j <= y.len(),
            (names(x@) == names(y@)) == (names(x@.skip(i as int)) == names(y@.skip(j as int))),
        decreases x.len() - i,
    {
        let ghost a = names(x@.skip(i as int));
        let ghost b = names(y@.skip(j as int));
        match (next_name(x, i), next_name(y, j)) {
            (None, None) => {
                assert(a =~= b);
                return true;
            },
            (Some((xb, xe, xn)), Some((yb, ye, yn))) => {
                let ghost a_rest = names(x@.skip(xn as int));
                let ghost b_rest = names(y@.skip(yn as int));
                proof {
                    assert(a.skip(1) =~= a_rest);
                    assert(b.skip(1) =~= b_rest);
                    assert(a[0] == x@.subrange(xb as int, xe as int));
                    assert(b[0] == y@.subrange(yb as int, ye as int));
                }
                if !same_bytes(x, xb, xe, y, yb, ye) {
                    return false;
                }
                assert((a == b) == (a_rest == b_rest));
                i = xn;
                j = yn;
            },
            _ => {
                return false;
            },
        }
    }
}

/// The bytes of each path.
pub open spec fn views(paths: Seq<FilePath>) -> Seq<Seq<u8>> {
    Seq::new(paths.len(), |i: int| paths[i]@)
}

/// What each path of a list comes down to.
pub open spec fn keys(paths: Seq<FilePath>) -> Seq<PathKey> {
    keys_of(views(paths))
}

/// Where a path first occurs in a list.
pub fn position_of(paths: &Vec<FilePath>, path: &FilePath) -> (r: Option<usize>)
    ensures
        match r {
            Some(i) => {
                &&& i < paths.len()
                &&& paths@[i as int]@ == path@
                &&& forall|k: int| 0 <= k < i ==> (#[trigger] paths@[k])@ != path@
            },
            None => forall|k: int| 0 <= k < paths.len() ==> (#[trigger] paths@[k])@ != path@,
        },
{
    let mut i: usize = 0;
    while i < paths.len()
        invariant
            i <= paths.len(),
            forall|k: int| 0 <= k < i ==> (#[trigger] paths@[k])@ != path@,
        decreases paths.len() - i,
    {
        if paths[i].same_as(path) {
            return Some(i);
        }
        i = i + 1;
    }
    None
}

/// Where a path first occurs in a list, by what it comes down to.
pub fn position_of_key(paths: &Vec<FilePath>, path: &FilePath) -> (r: Option<usize>)
    ensures
        match r {
            Some(i) => {
                &&& i < paths.len()
                &&& paths@[i as int].key() == path.key()
                &&& forall|k: int| 0 <= k < i ==> (#[trigger] paths@[k]).key() != path.key()
            },
            None => forall|k: int|
                0 <= k < paths.len() ==> (#[trigger] paths@[k]).key() != path.key(),
        },
{
    let mut i: usize = 0;
    while i < paths.len()
        invariant
            i <= paths.len(),
            forall|k: int| 0 <= k < i ==> (#[trigger] paths@[k]).key() != path.key(),
        decreases paths.len() - i,
    {
        if paths[i].same_key_as(path) {
            return Some(i);
        }
        i = i + 1;
    }
    None
}

/// The first piece of a path that goes on after a separator.
proof fn lemma_first_piece(a: Seq<u8>, b: Seq<u8>)
    ensures
        piece_len(a + seq![SLASH] + b) == piece_len(a),
{
    let whole = a + seq![SLASH] + b;
    let n = piece_len(a) as int;
    lemma_piece_len(a);
    assert forall|k: int| 0 <= k < n implies #[trigger] whole[k] != SLASH by {
        assert(whole[k] == a[k]);
    }
    if n < a.len() {
        assert(whole[n] == a[n]);
    }
    lemma_piece_len_is(whole, n);
}

/// A separator parts the names.
proof fn lemma_names_of_parts(a: Seq<u8>, b: Seq<u8>)
    ensures
        names(a + seq![SLASH] + b) == names(a) + names(b),
    decreases a.len(),
{
    let whole = a + seq![SLASH] + b;
    let n = piece_len(a) as int;
    lemma_piece_len(a);
    lemma_first_piece(a, b);
    assert(whole.take(n) =~= a.take(n));
    if n < a.len() {
        assert(whole.skip(n + 1) =~= a.skip(n + 1) + seq![SLASH] + b);
        lemma_names_of_parts(a.skip(n + 1), b);
        assert(names(whole) =~= names(a) + names(b));
    } else {
        assert(a.take(n) =~= a);
        assert(whole.skip(n + 1) =~= b);
    }
}

/// Where a path starts is up to what stands before the first separator.
proof fn lemma_start_of_parts(a: Seq<u8>, b: Seq<u8>)
    ensures
        start(a + seq![SLASH] + b) == if a.len() == 0 {
            PathStart::Root
        } else {
            start(a)
        },
{
    let whole = a + seq![SLASH] + b;
    lemma_piece_len(a);
    lemma_first_piece(a, b);
    assert(whole.take(piece_len(a) as int) =~= a.take(piece_len(a) as int));
    if a.len() > 0 {
        assert(whole[0] == a[0]);
    } else {
        assert(whole[0] == SLASH);
    }
}

/// Two separators in a row are as good as one, and so is a dot between two; a separator at
/// the end, with or without a dot behind it, does not matter.
pub proof fn law_spelling_does_not_matter(a: Seq<u8>, b: Seq<u8>)
    ensures
        key_of(a + seq![SLASH] + (seq![SLASH] + b)) == key_of(a + seq![SLASH] + b),
        key_of(a + seq![SLASH] + (seq![DOT, SLASH] + b)) == key_of(a + seq![SLASH] + b),
        a.len() > 0 ==> key_of(a + seq![SLASH]) == key_of(a),
        a.len() > 0 ==> key_of(a + seq![SLASH] + seq![DOT]) == key_of(a),
{
    let none = Seq::<u8>::empty();
    let dot = seq![DOT];
    lemma_no_names();
    lemma_piece_len_is(dot, 1);
    assert(names(dot) =~= Seq::<Seq<u8>>::empty());
    assert(seq![SLASH] + b =~= none + seq![SLASH] + b);
    assert(seq![DOT, SLASH] + b =~= dot + seq![SLASH] + b);
    assert(a + seq![SLASH] + none =~= a + seq![SLASH]);
    lemma_names_of_parts(none, b);
    lemma_names_of_parts(dot, b);
    lemma_names_of_parts(a, b);
    lemma_names_of_parts(a, seq![SLASH] + b);
    lemma_names_of_parts(a, seq![DOT, SLASH] + b);
    lemma_names_of_parts(a, none);
    lemma_names_of_parts(a, dot);
    lemma_start_of_parts(a, b);
    lemma_start_of_parts(a, seq![SLASH] + b);
    lemma_start_of_parts(a, seq![DOT, SLASH] + b);
    lemma_start_of_parts(a, none);
    lemma_start_of_parts(a, dot);
    assert(names(b) =~= Seq::<Seq<u8>>::empty() + names(b));
    assert(names(a) =~= names(a) + Seq::<Seq<u8>>::empty());
}

/// A path is made of bytes and hands out the same; it is the same as another if they have the
/// same bytes, and has the same key if it comes down to the same.
pub proof fn law_paths_are_their_bytes(
    bytes: Vec<u8>,
    path: FilePath,
    shown: &[u8],
    other: FilePath,
    same: bool,
    same_key: bool,
    copy: FilePath,
)
    requires
        call_ensures(FilePath::new, (bytes,), path),
        call_ensures(FilePath::as_bytes, (&path,), shown),
        call_ensures(FilePath::same_as, (&path, &other), same),
        call_ensures(FilePath::same_key_as, (&path, &other), same_key),
        call_ensures(<FilePath as Clone>::clone, (&path,), copy),
    ensures
        path@ == bytes@,
        shown@ == bytes@,
        copy@ == bytes@,
        same <==> path@ == other@,
        same_key <==> key_of(path@) == key_of(other@),
{
}

/// The first place of a path in a list, by its bytes or by what it comes down to.
pub proof fn law_positions_are_the_first(
    paths: &Vec<FilePath>,
    path: &FilePath,
    at: Option<usize>,
    by_key: Option<usize>,
    i: int,
)
    requires
        call_ensures(position_of, (paths, path), at),
        call_ensures(position_of_key, (paths, path), by_key),
        0 <= i < paths@.len(),
    ensures
        paths@[i]@ == path@ ==> at is Some && at->0 <= i,
        at is Some ==> at->0 < paths@.len() && paths@[at->0 as int]@ == path@,
        key_of(paths@[i]@) == key_of(path@) ==> by_key is Some && by_key->0 <= i,
        by_key is Some ==> by_key->0 < paths@.len() && key_of(paths@[by_key->0 as int]@) == key_of(
            path@,
        ),
{
}

/// The names with a separator between each two.
pub open spec fn joined(pieces: Seq<Seq<u8>>) -> Seq<u8>
    decreases pieces.len(),
{
    if pieces.len() == 0 {
        seq![]
    } else if pieces.len() == 1 {
        pieces[0]
    } else {
        joined(pieces.drop_last()) + seq![0x2fu8] + pieces.last()
    }
}

/// Proper names: not empty, not a dot, and without a separator.
pub open spec fn proper_names(pieces: Seq<Seq<u8>>) -> bool {
    forall|i: int|
        0 <= i < pieces.len() ==> {
            let piece = #[trigger] pieces[i];
            &&& piece.len() > 0
            &&& !(piece.len() == 1 && piece[0] == 0x2e)
            &&& forall|k: int| 0 <= k < piece.len() ==> #[trigger] piece[k] != 0x2f
        }
}

proof fn lemma_one_name(piece: Seq<u8>)
    requires
        proper_names(seq![piece]),
    ensures
        names(piece) == seq![piece],
        start(piece) == PathStart::Unsaid,
{
    assert(seq![piece][0] == piece);
    lemma_piece_len_is(piece, piece.len() as int);
    assert(piece.take(piece.len() as int) =~= piece);
    if piece == seq![DOT] {
        assert(piece[0] == DOT);
    }
}

/// A path comes down to its names: paths of proper names come down to the same only if they
/// have the same names in the same order; and a separator or a dot before them makes a
/// difference.
pub proof fn law_names_tell_paths_apart(pieces: Seq<Seq<u8>>)
    requires
        pieces.len() > 0,
        proper_names(pieces),
    ensures
        key_of(joined(pieces)) == (PathKey { start: PathStart::Unsaid, names: pieces }),
        key_of(seq![0x2fu8] + joined(pieces)) == (PathKey {
            start: PathStart::Root,
            names: pieces,
        }),
        key_of(seq![0x2eu8] + seq![0x2fu8] + joined(pieces)) == (PathKey {
            start: PathStart::Here,
            names: pieces,
        }),
    decreases pieces.len(),
{
    let whole = joined(pieces);
    if pieces.len() == 1 {
        assert(pieces =~= seq![pieces[0]]);
        lemma_one_name(pieces[0]);
    } else {
        let front = pieces.drop_last();
        let last = pieces.last();
        assert(proper_names(front)) by {
            assert forall|i: int| 0 <= i < front.len() implies #[trigger] front[i] == pieces[i] by {}
        }
        assert(proper_names(seq![last])) by {
            assert(pieces[pieces.len() - 1] == last);
        }
        law_names_tell_paths_apart(front);
        lemma_one_name(last);
        lemma_names_of_parts(joined(front), last);
        lemma_start_of_parts(joined(front), last);
        assert(names(whole) =~= pieces);
        if joined(front).len() == 0 {
            lemma_no_names();
            assert(joined(front) =~= Seq::<u8>::empty());
            assert(front =~= Seq::<Seq<u8>>::empty());
        }
    }
    let none = Seq::<u8>::empty();
    let dot = seq![DOT];
    lemma_no_names();
    lemma_piece_len_is(dot, 1);
    assert(dot.take(1) =~= dot);
    assert(names(dot) =~= Seq::<Seq<u8>>::empty());
    assert(none + seq![SLASH] + whole =~= seq![0x2fu8] + whole);
    lemma_names_of_parts(none, whole);
    lemma_start_of_parts(none, whole);
    lemma_names_of_parts(dot, whole);
    lemma_start_of_parts(dot, whole);
    assert(Seq::<Seq<u8>>::empty() + names(whole) =~= pieces);
}

} // verus!
