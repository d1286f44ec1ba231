//! Natural order of file names: runs of digits compare as numbers, letters without case.

use crate::text::{chars_of, is_digit_char, lower_code};
use std::cmp::Ordering;
use vstd::prelude::*;

verus! {

/// How one thing stands to another.
#[derive(Clone, Copy, Debug, PartialEq, Eq, Structural)]
pub enum Order {
    Less,
    Equal,
    Greater,
}

impl Order {
    /// The order seen from the other side.
    pub open spec fn reverse(self) -> Order {
        match self {
            Order::Less => Order::Greater,
            Order::Equal => Order::Equal,
            Order::Greater => Order::Less,
        }
    }
}

pub open spec fn int_order(a: int, b: int) -> Order {
    if a < b {
        Order::Less
    } else if a == b {
        Order::Equal
    } else {
        Order::Greater
    }
}

/// One unit of comparison in a name.
pub enum Token {
    /// A run of digits, by its value.
    Number(nat),
    /// Any other character, in lower case.
    Letter(char),
}

/// The number of digits at the start.
pub open spec fn run_len(s: Seq<char>) -> nat
    decreases s.len(),
{
    if s.len() == 0 || !crate::text::is_digit(s[0]) {
        0
    } else {
        1 + run_len(s.skip(1))
    }
}

/// The value of a row of decimal digits.
pub open spec fn value(digits: Seq<char>) -> nat
    decreases digits.len(),
{
    if digits.len() == 0 {
        0
    } else {
        10 * value(digits.drop_last()) + (digits.last() as nat - '0' as nat) as nat
    }
}

proof fn lemma_run_len(s: Seq<char>)
    ensures
        run_len(s) <= s.len(),
        forall|k: int| 0 <= k < run_len(s) ==> crate::text::is_digit(#[trigger] s[k]),
        run_len(s) < s.len() ==> !crate::text::is_digit(s[run_len(s) as int]),
    decreases s.len(),
{
    if s.len() > 0 && crate::text::is_digit(s[0]) {
        lemma_run_len(s.skip(1));
        assert forall|k: int| 0 <= k < run_len(s) implies crate::text::is_digit(
            #[trigger] s[k],
        ) by {
            if k > 0 {
                assert(s[k] == s.skip(1)[k - 1]);
            }
        }
    }
}

/// The tokens of a name, left to right.
pub open spec fn tokens(s: Seq<char>) -> Seq<Token>
    decreases s.len(),
{
    if s.len() == 0 {
        seq![]
    } else if crate::text::is_digit(s[0]) {
        let n = run_len(s) as int;
        if 0 < n <= s.len() {
            seq![Token::Number(value(s.take(n)))] + tokens(s.skip(n))
        } else {
            seq![]
        }
    } else {
        seq![Token::Letter(crate::text::lower(s[0]))] + tokens(s.skip(1))
    }
}

/// Where a token stands: characters before the digits, numbers, characters after them;
/// within each by code or value.
pub open spec fn rank(t: Token) -> (int, int) {
    match t {
        Token::Number(n) => (1, n as int),
        Token::Letter(c) => if '0' > c {
            (0, c as int)
        } else {
            (2, c as int)
        },
    }
}

pub open spec fn token_order(a: Token, b: Token) -> Order {
    if rank(a).0 != rank(b).0 {
        int_order(rank(a).0, rank(b).0)
    } else {
        int_order(rank(a).1, rank(b).1)
    }
}

/// The first token that differs decides; a name that runs out first is less.
pub open spec fn token_seq_order(a: Seq<Token>, b: Seq<Token>) -> Order
    decreases a.len(),
{
    if a.len() == 0 && b.len() == 0 {
        Order::Equal
    } else if a.len() == 0 {
        Order::Less
    } else if b.len() == 0 {
        Order::Greater
    } else if token_order(a[0], b[0]) != Order::Equal {
        token_order(a[0], b[0])
    } else {
        token_seq_order(a.skip(1), b.skip(1))
    }
}

/// The natural order of two names.
pub open spec fn natural_order(a: Seq<char>, b: Seq<char>) -> Order {
    token_seq_order(tokens(a), tokens(b))
}

/// Where the run of digits that starts at `from` ends.
fn run_end(s: &Vec<char>, from: usize) -> (end: usize)
    requires
        from < s.len(),
        crate::text::is_digit(s@[from as int]),
    ensures
        from < end <= s.len(),
        run_len(s@.skip(from as int)) == end - from,
        forall|k: int| from <= k < end ==> crate::text::is_digit(#[trigger] s@[k]),
{
    let mut end: usize = from;
    let ghost whole = s@.skip(from as int);
    proof {
        lemma_run_len(whole);
        assert(whole[0] == s@[from as int]);
        assert(run_len(whole) >= 1);
    }
    while end < s.len() && is_digit_char(s[end])
        invariant
            from <= end <= s.len(),
            forall|k: int| from <= k < end ==> crate::text::is_digit(#[trigger] s@[k]),
        decreases s.len() - end,
    {
        end = end + 1;
    }
    proof {
        let n = run_len(whole) as int;
        if n < end - from {
            assert(whole[n] == s@[from + n]);
        }
        if n > end - from {
            assert(whole[end - from] == s@[end as int]);
        }
    }
    end
}

/// Adding a digit on the right.
proof fn lemma_value_push(s: Seq<char>, from: int, to: int)
    requires
        0 <= from <= to < s.len(),
        crate::text::is_digit(s[to]),
    ensures
        value(s.subrange(from, to + 1)) == 10 * value(s.subrange(from, to)) + (s[to] as int
            - '0' as int),
{
    assert(s.subrange(from, to + 1).drop_last() == s.subrange(from, to));
}

/// Compares two runs of digits by value.
fn compare_runs(
    x: &Vec<char>,
    x_from: usize,
    x_end: usize,
    y: &Vec<char>,
    y_from: usize,
    y_end: usize,
) -> (r: Order)
    requires
        x_from <= x_end <= x.len(),
        y_from <= y_end <= y.len(),
        forall|k: int| x_from <= k < x_end ==> crate::text::is_digit(#[trigger] x@[k]),
        forall|k: int| y_from <= k < y_end ==> crate::text::is_digit(#[trigger] y@[k]),
    ensures
        r == int_order(
            value(x@.subrange(x_from as int, x_end as int)) as int,
            value(y@.subrange(y_from as int, y_end as int)) as int,
        ),
{
    let mut i: usize = x_from;
    let mut j: usize = y_from;
    let mut r = Order::Equal;
    while x_end - i > y_end - j
        invariant
            x_from <= i <= x_end <= x.len(),
            j == y_from,
            y_from <= y_end <= y.len(),
            forall|k: int| x_from <= k < x_end ==> crate::text::is_digit(#[trigger] x@[k]),
            i > x_from ==> x_end - i >= y_end - j,
            r == int_order(value(x@.subrange(x_from as int, i as int)) as int, 0),
        decreases x_end - i,
    {
        proof {
            lemma_value_push(x@, x_from as int, i as int);
        }
        if x[i] != '0' {
            r = Order::Greater;
        }
        i = i + 1;
    }
    assert(value(y@.subrange(y_from as int, j as int)) == 0);
    while y_end - j > x_end - i
        invariant
            y_from <= j <= y_end <= y.len(),
            x_from <= i <= x_end <= x.len(),
            forall|k: int| y_from <= k < y_end ==> crate::text::is_digit(#[trigger] y@[k]),
            x_end - i <= y_end - j,
            i > x_from ==> x_end - i == y_end - j,
            r == int_order(
                value(x@.subrange(x_from as int, i as int)) as int,
                value(y@.subrange(y_from as int, j as int)) as int,
            ),
        decreases y_end - j,
    {
        proof {
            lemma_value_push(y@, y_from as int, j as int);
            assert(value(x@.subrange(x_from as int, i as int)) == 0);
        }
        if y[j] != '0' {
            r = Order::Less;
        }
        j = j + 1;
    }
    while i < x_end
        invariant
            x_from <= i <= x_end <= x.len(),
            y_from <= j <= y_end <= y.len(),
            x_end - i == y_end - j,
            forall|k: int| x_from <= k < x_end ==> crate::text::is_digit(#[trigger] x@[k]),
            forall|k: int| y_from <= k < y_end ==> crate::text::is_digit(#[trigger] y@[k]),
            r == int_order(
                value(x@.subrange(x_from as int, i as int)) as int,
                value(y@.subrange(y_from as int, j as int)) as int,
            ),
        decreases x_end - i,
    {
        proof {
            lemma_value_push(x@, x_from as int, i as int);
            lemma_value_push(y@, y_from as int, j as int);
        }
        if let Order::Equal = r {
            if x[i] < y[j] {
                r = Order::Less;
            } else if y[j] < x[i] {
                r = Order::Greater;
            }
        }
        i = i + 1;
        j = j + 1;
    }
    r
}

/// The tokens from a position on, one step unfolded.
proof fn lemma_tokens_at(s: Seq<char>, i: int)
    requires
        0 <= i < s.len(),
    ensures
        crate::text::is_digit(s[i]) ==> ({
            let n = run_len(s.skip(i)) as int;
            &&& 0 < n <= s.len() - i
            &&& tokens(s.skip(i)).len() > 0
            &&& tokens(s.skip(i))[0] == Token::Number(value(s.subrange(i, i + n)))
            &&& tokens(s.skip(i)).skip(1) == tokens(s.skip(i + n))
        }),
        !crate::text::is_digit(s[i]) ==> {
            &&& tokens(s.skip(i)).len() > 0
            &&& tokens(s.skip(i))[0] == Token::Letter(crate::text::lower(s[i]))
            &&& tokens(s.skip(i)).skip(1) == tokens(s.skip(i + 1))
        },
{
    let rest = s.skip(i);
    assert(rest[0] == s[i]);
    lemma_run_len(rest);
    if crate::text::is_digit(s[i]) {
        let n = run_len(rest) as int;
        assert(n > 0);
        assert(rest.take(n) == s.subrange(i, i + n));
        assert(rest.skip(n) == s.skip(i + n));
        assert(tokens(rest).skip(1) == tokens(rest.skip(n)));
    } else {
        assert(rest.skip(1) == s.skip(i + 1));
        assert(tokens(rest).skip(1) == tokens(rest.skip(1)));
    }
}

/// The natural order of two names.
pub(crate) fn compare_names(a: &str, b: &str) -> (r: Order)
    ensures
        r == natural_order(a@, b@),
{
    let x = chars_of(a);
    let y = chars_of(b);
    let mut i: usize = 0;
    let mut j: usize = 0;
    assert(x@.skip(0) == x@);
    assert(y@.skip(0) == y@);
    while i < x.len() && j < y.len()
        invariant
            i <= x.len(),
            j <= y.len(),
            x@ == a@,
            y@ == b@,
            natural_order(a@, b@) == natural_order(x@.skip(i as int), y@.skip(j as int)),
        decreases x.len() - i,
    {
        proof {
            lemma_tokens_at(x@, i as int);
            lemma_tokens_at(y@, j as int);
        }
        if is_digit_char(x[i]) && is_digit_char(y[j]) {
            let x_end = run_end(&x, i);
            let y_end = run_end(&y, j);
            let r = compare_runs(&x, i, x_end, &y, j, y_end);
            match r {
                Order::Equal => {},
                _ => return r,
            }
            i = x_end;
            j = y_end;
        } else {
            let c = lower_code(x[i]);
            let d = lower_code(y[j]);
            if c < d {
                return Order::Less;
            }
            if d < c {
                return Order::Greater;
            }
            i = i + 1;
            j = j + 1;
        }
    }
    if i < x.len() {
        proof {
            lemma_tokens_at(x@, i as int);
        }
        Order::Greater
    } else if j < y.len() {
        proof {
            lemma_tokens_at(y@, j as int);
        }
        Order::Less
    } else {
        Order::Equal
    }
}

/// Natural, case-insensitive comparison: "img2" comes before "img10", and "A" equals "a".
pub fn natural_cmp_ci(a: &str, b: &str) -> (r: Ordering)
    ensures
        match r {
            Ordering::Less => natural_order(a@, b@) == Order::Less,
            Ordering::Equal => natural_order(a@, b@) == Order::Equal,
            Ordering::Greater => natural_order(a@, b@) == Order::Greater,
        },
{
    match compare_names(a, b) {
        Order::Less => Ordering::Less,
        Order::Equal => Ordering::Equal,
        Order::Greater => Ordering::Greater,
    }
}

proof fn lemma_token_seq_reflexive(a: Seq<Token>)
    ensures
        token_seq_order(a, a) == Order::Equal,
    decreases a.len(),
{
    if a.len() > 0 {
        lemma_token_seq_reflexive(a.skip(1));
    }
}

proof fn lemma_token_seq_reverse(a: Seq<Token>, b: Seq<Token>)
    ensures
        token_seq_order(b, a) == token_seq_order(a, b).reverse(),
    decreases a.len(),
{
    if a.len() > 0 && b.len() > 0 {
        lemma_token_seq_reverse(a.skip(1), b.skip(1));
    }
}

proof fn lemma_token_seq_transitive(a: Seq<Token>, b: Seq<Token>, c: Seq<Token>)
    requires
        token_seq_order(a, b) != Order::Greater,
        token_seq_order(b, c) != Order::Greater,
    ensures
        token_seq_order(a, c) != Order::Greater,
        token_seq_order(a, b) == Order::Less || token_seq_order(b, c) == Order::Less
            <==> token_seq_order(a, c) == Order::Less,
    decreases a.len(),
{
    if a.len() > 0 && b.len() > 0 && c.len() > 0 && token_order(a[0], b[0]) == Order::Equal
        && token_order(b[0], c[0]) == Order::Equal {
        lemma_token_seq_transitive(a.skip(1), b.skip(1), c.skip(1));
    }
}

/// Every name equals itself.
pub proof fn law_order_is_reflexive(a: Seq<char>)
    ensures
        natural_order(a, a) == Order::Equal,
{
    lemma_token_seq_reflexive(tokens(a));
}

/// Exchanging the names reverses their order.
pub proof fn law_order_reverses(a: Seq<char>, b: Seq<char>)
    ensures
        natural_order(b, a) == natural_order(a, b).reverse(),
{
    lemma_token_seq_reverse(tokens(a), tokens(b));
}

/// A name that is not after a second, which is not after a third, is not after the third,
/// and is before it exactly if one of the two steps was a step forward.
pub proof fn law_order_is_transitive(a: Seq<char>, b: Seq<char>, c: Seq<char>)
    requires
        natural_order(a, b) != Order::Greater,
        natural_order(b, c) != Order::Greater,
    ensures
        natural_order(a, c) != Order::Greater,
        natural_order(a, b) == Order::Less || natural_order(b, c) == Order::Less
            <==> natural_order(a, c) == Order::Less,
{
    lemma_token_seq_transitive(tokens(a), tokens(b), tokens(c));
}

/// The two names differ in the case of ASCII letters at most.
pub open spec fn same_but_case(a: Seq<char>, b: Seq<char>) -> bool {
    &&& a.len() == b.len()
    &&& forall|k: int|
        0 <= k < a.len() ==> crate::text::lower(#[trigger] a[k]) == crate::text::lower(b[k])
}

proof fn lemma_lower_keeps_digits(c: char, d: char)
    requires
        crate::text::lower(c) == crate::text::lower(d),
    ensures
        crate::text::is_digit(c) <==> crate::text::is_digit(d),
        crate::text::is_digit(c) ==> c == d,
{
}

proof fn lemma_same_tokens(a: Seq<char>, b: Seq<char>)
    requires
        same_but_case(a, b),
    ensures
        tokens(a) == tokens(b),
    decreases a.len(),
{
    if a.len() > 0 {
        lemma_tokens_at(a, 0);
        lemma_tokens_at(b, 0);
        assert(a.skip(0) == a);
        assert(b.skip(0) == b);
        lemma_lower_keeps_digits(a[0], b[0]);
        if crate::text::is_digit(a[0]) {
            let n = run_len(a) as int;
            let m = run_len(b) as int;
            lemma_run_len(a);
            lemma_run_len(b);
            if n < m {
                lemma_lower_keeps_digits(a[n], b[n]);
            }
            if m < n {
                lemma_lower_keeps_digits(a[m], b[m]);
            }
            assert forall|k: int| 0 <= k < n implies a[k] == b[k] by {
                lemma_lower_keeps_digits(a[k], b[k]);
            }
            assert(a.subrange(0, n) == b.subrange(0, n));
            assert(same_but_case(a.skip(n), b.skip(n)));
            lemma_same_tokens(a.skip(n), b.skip(n));
            assert(tokens(a) == seq![tokens(a)[0]] + tokens(a).skip(1));
            assert(tokens(b) == seq![tokens(b)[0]] + tokens(b).skip(1));
        } else {
            assert(same_but_case(a.skip(1), b.skip(1)));
            lemma_same_tokens(a.skip(1), b.skip(1));
            assert(tokens(a) == seq![tokens(a)[0]] + tokens(a).skip(1));
            assert(tokens(b) == seq![tokens(b)[0]] + tokens(b).skip(1));
        }
    }
}

/// Case does not matter: two names that differ only in it are equal, and stand the same
/// way to every other name.
pub proof fn law_order_ignores_case(a: Seq<char>, b: Seq<char>, other: Seq<char>)
    requires
        same_but_case(a, b),
    ensures
        natural_order(a, b) == Order::Equal,
        natural_order(a, other) == natural_order(b, other),
{
    lemma_same_tokens(a, b);
    lemma_token_seq_reflexive(tokens(a));
}

/// A name cut anywhere but inside a run of digits has the tokens of its parts.
proof fn lemma_tokens_of_parts(p: Seq<char>, r: Seq<char>)
    requires
        p.len() > 0 && r.len() > 0 ==> !(crate::text::is_digit(p.last()) && crate::text::is_digit(
            r[0],
        )),
    ensures
        tokens(p + r) == tokens(p) + tokens(r),
    decreases p.len(),
{
    let s = p + r;
    if p.len() == 0 {
        assert(s == r);
    } else {
        lemma_tokens_at(s, 0);
        lemma_tokens_at(p, 0);
        assert(s.skip(0) == s);
        assert(p.skip(0) == p);
        lemma_run_len(s);
        lemma_run_len(p);
        let n = if crate::text::is_digit(p[0]) {
            run_len(p) as int
        } else {
            1
        };
        if crate::text::is_digit(p[0]) {
            let m = run_len(s) as int;
            if m < n {
                assert(s[m] == p[m]);
            }
            if n < m {
                if n < p.len() {
                    assert(s[n] == p[n]);
                } else {
                    assert(s[n] == r[0]);
                    assert(p.last() == p[n - 1]);
                }
            }
            assert(s.subrange(0, n) == p.subrange(0, n));
        }
        assert(s.skip(n) == p.skip(n) + r);
        lemma_tokens_of_parts(p.skip(n), r);
        assert(tokens(s) == seq![tokens(s)[0]] + tokens(s).skip(1));
        assert(tokens(p) == seq![tokens(p)[0]] + tokens(p).skip(1));
        assert(tokens(s) == tokens(p) + tokens(r));
    }
}

proof fn lemma_common_prefix(p: Seq<Token>, a: Seq<Token>, b: Seq<Token>)
    ensures
        token_seq_order(p + a, p + b) == token_seq_order(a, b),
    decreases p.len(),
{
    if p.len() == 0 {
        assert(p + a == a);
        assert(p + b == b);
    } else {
        assert((p + a).skip(1) == p.skip(1) + a);
        assert((p + b).skip(1) == p.skip(1) + b);
        lemma_common_prefix(p.skip(1), a, b);
    }
}

/// A whole run of digits followed by something else.
pub open spec fn number_then(digits: Seq<char>, rest: Seq<char>) -> bool {
    &&& digits.len() > 0
    &&& forall|k: int| 0 <= k < digits.len() ==> crate::text::is_digit(#[trigger] digits[k])
    &&& rest.len() > 0 ==> !crate::text::is_digit(rest[0])
}

proof fn lemma_number_first(digits: Seq<char>, rest: Seq<char>)
    requires
        number_then(digits, rest),
    ensures
        tokens(digits + rest).len() > 0,
        tokens(digits + rest)[0] == Token::Number(value(digits)),
        tokens(digits + rest).skip(1) == tokens(rest),
{
    let s = digits + rest;
    lemma_tokens_at(s, 0);
    assert(s.skip(0) == s);
    lemma_run_len(s);
    let n = run_len(s) as int;
    assert(s[0] == digits[0]);
    if n < digits.len() {
        assert(s[n] == digits[n]);
    }
    if n > digits.len() {
        assert(s[digits.len() as int] == rest[0]);
    }
    assert(s.subrange(0, n) == digits);
    assert(s.skip(n) == rest);
}

/// Numbers compare as numbers: after a common start, the name with the smaller number
/// comes first, whatever the lengths and leading zeros, and equal numbers leave it to what
/// follows.
pub proof fn law_numbers_compare_by_value(
    start: Seq<char>,
    a: Seq<char>,
    a_rest: Seq<char>,
    b: Seq<char>,
    b_rest: Seq<char>,
)
    requires
        start.len() > 0 ==> !crate::text::is_digit(start.last()),
        number_then(a, a_rest),
        number_then(b, b_rest),
    ensures
        value(a) < value(b) ==> natural_order(start + (a + a_rest), start + (b + b_rest))
            == Order::Less,
        value(a) == value(b) ==> natural_order(start + (a + a_rest), start + (b + b_rest))
            == natural_order(a_rest, b_rest),
{
    lemma_tokens_of_parts(start, a + a_rest);
    lemma_tokens_of_parts(start, b + b_rest);
    lemma_common_prefix(tokens(start), tokens(a + a_rest), tokens(b + b_rest));
    lemma_number_first(a, a_rest);
    lemma_number_first(b, b_rest);
}

proof fn lemma_token_seq_equal(a: Seq<Token>, b: Seq<Token>)
    requires
        token_seq_order(a, b) == Order::Equal,
    ensures
        a == b,
    decreases a.len(),
{
    if a.len() > 0 {
        lemma_token_seq_equal(a.skip(1), b.skip(1));
        assert(a == seq![a[0]] + a.skip(1));
        assert(b == seq![b[0]] + b.skip(1));
    }
}

/// Names that are equal in the order stand the same way to every other name.
pub proof fn law_equal_names_stand_alike(a: Seq<char>, b: Seq<char>, other: Seq<char>)
    requires
        natural_order(a, b) == Order::Equal,
    ensures
        natural_order(a, other) == natural_order(b, other),
        natural_order(other, a) == natural_order(other, b),
{
    lemma_token_seq_equal(tokens(a), tokens(b));
}

/// A row of zeros.
pub open spec fn zeros(count: nat) -> Seq<char> {
    Seq::new(count, |k: int| '0')
}

proof fn lemma_zeros_in_front(count: nat, digits: Seq<char>)
    ensures
        value(zeros(count) + digits) == value(digits),
    decreases count + digits.len(),
{
    let all = zeros(count) + digits;
    if digits.len() > 0 {
        assert(all.drop_last() == zeros(count) + digits.drop_last());
        lemma_zeros_in_front(count, digits.drop_last());
    } else if count > 0 {
        assert(all.drop_last() == zeros((count - 1) as nat) + digits);
        lemma_zeros_in_front((count - 1) as nat, digits);
    }
}

/// Part of a name: some characters, and a run of digits with zeros that may stand before it.
pub struct Run {
    pub start: Seq<char>,
    pub padding: nat,
    pub digits: Seq<char>,
}

impl Run {
    /// The run, with or without the zeros.
    pub open spec fn number(self, padded: bool) -> Seq<char> {
        if padded {
            zeros(self.padding) + self.digits
        } else {
            self.digits
        }
    }
}

/// The name that is made of the parts and what follows them.
pub open spec fn spelled(runs: Seq<Run>, rest: Seq<char>, padded: bool) -> Seq<char>
    decreases runs.len(),
{
    if runs.len() == 0 {
        rest
    } else {
        runs[0].start + (runs[0].number(padded) + spelled(runs.skip(1), rest, padded))
    }
}

/// The parts are cut so that each run of digits in them is a whole one.
pub open spec fn whole_runs(runs: Seq<Run>, rest: Seq<char>) -> bool {
    &&& forall|k: int|
        0 <= k < runs.len() ==> {
            let run = #[trigger] runs[k];
            &&& run.digits.len() > 0
            &&& forall|j: int|
                0 <= j < run.digits.len() ==> crate::text::is_digit(#[trigger] run.digits[j])
            &&& run.start.len() > 0 ==> !crate::text::is_digit(run.start.last())
            &&& k > 0 ==> run.start.len() > 0 && !crate::text::is_digit(run.start[0])
        }
    &&& runs.len() > 0 && rest.len() > 0 ==> !crate::text::is_digit(rest[0])
}

proof fn lemma_padding_keeps_tokens(runs: Seq<Run>, rest: Seq<char>)
    requires
        whole_runs(runs, rest),
    ensures
        tokens(spelled(runs, rest, true)) == tokens(spelled(runs, rest, false)),
    decreases runs.len(),
{
    if runs.len() > 0 {
        let run = runs[0];
        let others = runs.skip(1);
        assert forall|k: int| 0 <= k < others.len() implies #[trigger] others[k] == runs[k + 1] by {}
        lemma_padding_keeps_tokens(others, rest);
        lemma_part(run, spelled(others, rest, true), true);
        lemma_part(run, spelled(others, rest, false), false);
    }
}

/// The tokens of one part and of what follows it.
proof fn lemma_part(run: Run, tail: Seq<char>, padded: bool)
    requires
        number_then(run.digits, tail),
        run.start.len() > 0 ==> !crate::text::is_digit(run.start.last()),
    ensures
        tokens(run.start + (run.number(padded) + tail)) == tokens(run.start) + (seq![
            Token::Number(value(run.digits)),
        ] + tokens(tail)),
{
    let number = run.number(padded);
    lemma_zeros_in_front(run.padding, run.digits);
    lemma_number_first(number, tail);
    lemma_tokens_of_parts(run.start, number + tail);
    let after = tokens(number + tail);
    assert(after == seq![after[0]] + after.skip(1));
}

/// Zeros put before any of the runs of digits do not matter, nor does case along with them:
/// the two names are equal, and stand the same way to every other name.
pub proof fn law_order_ignores_leading_zeros(
    runs: Seq<Run>,
    rest: Seq<char>,
    padded: Seq<char>,
    other: Seq<char>,
)
    requires
        whole_runs(runs, rest),
        same_but_case(padded, spelled(runs, rest, true)),
    ensures
        natural_order(spelled(runs, rest, false), padded) == Order::Equal,
        natural_order(spelled(runs, rest, false), other) == natural_order(padded, other),
        natural_order(other, spelled(runs, rest, false)) == natural_order(other, padded),
{
    lemma_padding_keeps_tokens(runs, rest);
    lemma_same_tokens(padded, spelled(runs, rest, true));
    lemma_token_seq_reflexive(tokens(padded));
}

/// One of the ten decimal digits.
pub open spec fn decimal_digit(c: char) -> bool {
    48 <= c as int <= 57
}

/// The code of a character, with the 26 capital letters counted as the small ones.
pub open spec fn caseless_code(c: char) -> int {
    if 65 <= c as int <= 90 {
        c as int + 32
    } else {
        c as int
    }
}

/// After a common start, two characters that are not both digits compare by their codes, case
/// aside: so letters go from a to z, digits stand before letters, and what stands before
/// digits in ASCII stands before them here. Two that are the same leave it to what follows.
pub proof fn law_characters_compare_by_code(
    start: Seq<char>,
    c: char,
    a: Seq<char>,
    d: char,
    b: Seq<char>,
)
    requires
        !(decimal_digit(c) && decimal_digit(d)),
        start.len() > 0 && (decimal_digit(c) || decimal_digit(d)) ==> !decimal_digit(start.last()),
    ensures
        caseless_code(c) < caseless_code(d) ==> {
            &&& natural_order(start + (seq![c] + a), start + (seq![d] + b)) == Order::Less
            &&& natural_order(start + (seq![d] + b), start + (seq![c] + a)) == Order::Greater
        },
        caseless_code(c) == caseless_code(d) ==> natural_order(
            start + (seq![c] + a),
            start + (seq![d] + b),
        ) == natural_order(a, b),
{
    let (x, y) = (seq![c] + a, seq![d] + b);
    assert(x[0] == c && y[0] == d);
    assert(x.skip(0) =~= x && y.skip(0) =~= y);
    lemma_tokens_of_parts(start, x);
    lemma_tokens_of_parts(start, y);
    lemma_common_prefix(tokens(start), tokens(x), tokens(y));
    lemma_tokens_at(x, 0);
    lemma_tokens_at(y, 0);
    assert(x.skip(1) =~= a && y.skip(1) =~= b);
    law_order_reverses(start + x, start + y);
    assert(tokens(x)[0] is Number <==> decimal_digit(c));
    assert(tokens(y)[0] is Number <==> decimal_digit(d));
}

/// A name comes before every longer one that starts with it, unless a run of digits is cut.
pub proof fn law_beginnings_come_first(a: Seq<char>, more: Seq<char>)
    requires
        more.len() > 0,
        a.len() > 0 ==> !(decimal_digit(a.last()) && decimal_digit(more[0])),
    ensures
        natural_order(a, a + more) == Order::Less,
        natural_order(a + more, a) == Order::Greater,
{
    let none = Seq::<char>::empty();
    lemma_tokens_of_parts(a, more);
    lemma_tokens_of_parts(a, none);
    assert(a + none =~= a);
    lemma_common_prefix(tokens(a), tokens(none), tokens(more));
    lemma_tokens_at(more, 0);
    assert(more.skip(0) =~= more);
    law_order_reverses(a, a + more);
}

/// A number as it is written without leading zeros, and what follows it.
pub open spec fn plain_number(digits: Seq<char>, rest: Seq<char>) -> bool {
    &&& digits.len() > 0
    &&& digits[0] != '0'
    &&& forall|k: int| 0 <= k < digits.len() ==> decimal_digit(#[trigger] digits[k])
    &&& rest.len() > 0 ==> !decimal_digit(rest[0])
}

proof fn lemma_value_bounds(digits: Seq<char>)
    requires
        forall|k: int| 0 <= k < digits.len() ==> decimal_digit(#[trigger] digits[k]),
    ensures
        value(digits) < vstd::arithmetic::power::pow(10, digits.len()),
        digits.len() > 0 && digits[0] != '0' ==> vstd::arithmetic::power::pow(
            10,
            (digits.len() - 1) as nat,
        ) <= value(digits),
    decreases digits.len(),
{
    vstd::arithmetic::power::lemma_pow0(10);
    if digits.len() > 0 {
        let front = digits.drop_last();
        lemma_value_bounds(front);
        assert(decimal_digit(digits[digits.len() - 1]));
        assert(vstd::arithmetic::power::pow(10, digits.len()) == 10
            * vstd::arithmetic::power::pow(10, front.len())) by {
            reveal(vstd::arithmetic::power::pow);
        }
        if digits.len() > 1 {
            assert(front[0] == digits[0]);
            assert(vstd::arithmetic::power::pow(10, front.len()) == 10
                * vstd::arithmetic::power::pow(10, (front.len() - 1) as nat)) by {
                reveal(vstd::arithmetic::power::pow);
            }
        }
    }
}

/// Rows of digits of one length compare as their values do.
proof fn lemma_first_digit_decides(a: Seq<char>, b: Seq<char>, k: int)
    requires
        a.len() == b.len(),
        0 <= k < a.len(),
        a.take(k) == b.take(k),
        (a[k] as int) < b[k] as int,
        forall|j: int| 0 <= j < a.len() ==> decimal_digit(#[trigger] a[j]),
        forall|j: int| 0 <= j < b.len() ==> decimal_digit(#[trigger] b[j]),
    ensures
        value(a) < value(b),
    decreases a.len(),
{
    let (x, y) = (a.drop_last(), b.drop_last());
    assert(decimal_digit(a[a.len() - 1]) && decimal_digit(b[b.len() - 1]));
    if k == a.len() - 1 {
        assert(x =~= a.take(k) && y =~= b.take(k));
    } else {
        assert(x.take(k) =~= a.take(k) && y.take(k) =~= b.take(k));
        lemma_first_digit_decides(x, y, k);
    }
}

/// Numbers without leading zeros, after a common start: of two lengths the shorter is less;
/// of one length the first digit that differs decides; and the same number leaves it to what
/// follows.
pub proof fn law_numbers_compare_by_digits(
    start: Seq<char>,
    a: Seq<char>,
    a_rest: Seq<char>,
    b: Seq<char>,
    b_rest: Seq<char>,
    k: int,
)
    requires
        start.len() > 0 ==> !decimal_digit(start.last()),
        plain_number(a, a_rest),
        plain_number(b, b_rest),
    ensures
        a.len() < b.len() || (a.len() == b.len() && 0 <= k < a.len() && a.take(k) == b.take(k)
            && (a[k] as int) < b[k] as int) ==> {
            &&& natural_order(start + (a + a_rest), start + (b + b_rest)) == Order::Less
            &&& natural_order(start + (b + b_rest), start + (a + a_rest)) == Order::Greater
        },
        a == b ==> natural_order(start + (a + a_rest), start + (b + b_rest)) == natural_order(
            a_rest,
            b_rest,
        ),
{
    lemma_value_bounds(a);
    lemma_value_bounds(b);
    if a.len() < b.len() {
        vstd::arithmetic::power::lemma_pow_increases(10, a.len(), (b.len() - 1) as nat);
    } else if a.len() == b.len() && 0 <= k < a.len() && a.take(k) == b.take(k) && (a[k] as int)
        < b[k] as int {
        lemma_first_digit_decides(a, b, k);
    }
    assert(number_then(a, a_rest));
    assert(number_then(b, b_rest));
    law_numbers_compare_by_value(start, a, a_rest, b, b_rest);
    law_order_reverses(start + (a + a_rest), start + (b + b_rest));
}

/// The comparison of two names tells their order.
pub proof fn law_comparison_tells_the_order(a: &str, b: &str, r: Ordering)
    requires
        call_ensures(natural_cmp_ci, (a, b), r),
    ensures
        natural_order(a@, b@) == Order::Less ==> r == Ordering::Less,
        natural_order(a@, b@) == Order::Equal ==> r == Ordering::Equal,
        natural_order(a@, b@) == Order::Greater ==> r == Ordering::Greater,
{
}

} // verus!
