//! What the window says about an image.

use vstd::prelude::*;
use vstd::string::StringExecFns;

verus! {

/// The character of a digit.
pub open spec fn digit_char(d: nat) -> char {
    ('0' as nat + d) as char
}

/// A number in decimal.
pub open spec fn decimal(n: nat) -> Seq<char>
    decreases n,
{
    if n < 10 {
        seq![digit_char(n)]
    } else {
        decimal(n / 10).push(digit_char(n % 10))
    }
}

/// A number in decimal reads back as the number.
pub proof fn law_decimal_reads_back(n: nat)
    ensures
        crate::natural::value(decimal(n)) == n,
        forall|k: int|
            0 <= k < decimal(n).len() ==> crate::text::is_digit(#[trigger] decimal(n)[k]),
    decreases n,
{
    let d = decimal(n);
    if n < 10 {
        assert(d.drop_last() =~= Seq::<char>::empty());
        assert(crate::natural::value(d.drop_last()) == 0);
    } else {
        law_decimal_reads_back(n / 10);
        assert(d.drop_last() =~= decimal(n / 10));
    }
}

fn append_digit(s: &mut String, d: usize)
    requires
        d < 10,
    ensures
        final(s)@ == old(s)@.push(digit_char(d as nat)),
{
    let ghost before = s@;
    proof {
        reveal_strlit("0");
        reveal_strlit("1");
        reveal_strlit("2");
        reveal_strlit("3");
        reveal_strlit("4");
        reveal_strlit("5");
        reveal_strlit("6");
        reveal_strlit("7");
        reveal_strlit("8");
        reveal_strlit("9");
    }
    if d == 0 {
        s.append("0");
    } else if d == 1 {
        s.append("1");
    } else if d == 2 {
        s.append("2");
    } else if d == 3 {
        s.append("3");
    } else if d == 4 {
        s.append("4");
    } else if d == 5 {
        s.append("5");
    } else if d == 6 {
        s.append("6");
    } else if d == 7 {
        s.append("7");
    } else if d == 8 {
        s.append("8");
    } else {
        s.append("9");
    }
    assert(s@ =~= before.push(digit_char(d as nat)));
}

fn append_decimal(s: &mut String, n: usize)
    ensures
        final(s)@ == old(s)@ + decimal(n as nat),
    decreases n,
{
    let ghost before = s@;
    if n < 10 {
        append_digit(s, n);
    } else {
        append_decimal(s, n / 10);
        append_digit(s, n % 10);
    }
    assert(s@ =~= before + decimal(n as nat));
}

/// "(i/N) name" for the 1-based position `i` of the image at `idx`.
pub open spec fn caption(idx: nat, len: nat, name: Seq<char>) -> Seq<char> {
    "("@ + decimal(idx + 1) + "/"@ + decimal(len) + ") "@ + name
}

/// "(i/N) name" for a 0-based cursor index `idx` within `len` items.
pub fn caption_for(idx: usize, len: usize, name: &str) -> (r: String)
    requires
        idx < usize::MAX,
    ensures
        r@ == caption(idx as nat, len as nat, name@),
{
    let mut r = String::new();
    r.append("(");
    append_decimal(&mut r, idx + 1);
    r.append("/");
    append_decimal(&mut r, len);
    r.append(") ");
    r.append(name);
    assert(r@ =~= caption(idx as nat, len as nat, name@));
    r
}

/// What the status line says of a file that cannot be shown.
pub open spec fn failure(name: Seq<char>, error: Seq<char>) -> Seq<char> {
    "Can't display "@ + name + ": "@ + error
}

/// "Can't display name: error".
pub fn failure_message(name: &str, error: &str) -> (r: String)
    ensures
        r@ == failure(name@, error@),
{
    let mut r = String::new();
    r.append("Can't display ");
    r.append(name);
    r.append(": ");
    r.append(error);
    assert(r@ =~= failure(name@, error@));
    r
}

/// A number in the ten digits of ASCII, the highest place first and no zero before it.
pub open spec fn in_digits(n: nat) -> Seq<char>
    decreases n,
{
    if n < 10 {
        seq![(48 + n) as char]
    } else {
        in_digits(n / 10) + seq![(48 + n % 10) as char]
    }
}

proof fn lemma_in_digits(n: nat)
    ensures
        decimal(n) == in_digits(n),
    decreases n,
{
    if n >= 10 {
        lemma_in_digits(n / 10);
        assert(decimal(n) =~= in_digits(n));
    }
}

/// The caption "(i/N) name": the position counted from one, the number of images, and the name
/// as it is.
pub open spec fn caption_text(position: nat, len: nat, name: Seq<char>) -> Seq<char> {
    seq!['('] + in_digits(position) + seq!['/'] + in_digits(len) + seq![')', ' '] + name
}

/// A caption says which of how many images this is, counted from one, and its name.
pub proof fn law_caption_says_which_image(idx: usize, len: usize, name: &str, r: String)
    requires
        call_ensures(caption_for, (idx, len, name), r),
    ensures
        r@ == caption_text((idx + 1) as nat, len as nat, name@),
{
    lemma_caption(idx as nat, len as nat, name@);
}

pub(crate) proof fn lemma_caption(idx: nat, len: nat, name: Seq<char>)
    ensures
        caption(idx, len, name) == caption_text(idx + 1, len, name),
{
    reveal_strlit("(");
    reveal_strlit("/");
    reveal_strlit(") ");
    lemma_in_digits(idx + 1);
    lemma_in_digits(len);
    assert("("@ =~= seq!['(']);
    assert("/"@ =~= seq!['/']);
    assert(") "@ =~= seq![')', ' ']);
}

/// The message "Can't display name: error", with both as they are.
pub open spec fn failure_text(name: Seq<char>, error: Seq<char>) -> Seq<char> {
    seq!['C', 'a', 'n', '\'', 't', ' ', 'd', 'i', 's', 'p', 'l', 'a', 'y', ' '] + name + seq![
        ':',
        ' ',
    ] + error
}

/// A failure message names the file, and then says what went wrong.
pub proof fn law_failure_names_file_and_error(name: &str, error: &str, r: String)
    requires
        call_ensures(failure_message, (name, error), r),
    ensures
        r@ == failure_text(name@, error@),
{
    lemma_failure(name@, error@);
}

pub(crate) proof fn lemma_failure(name: Seq<char>, error: Seq<char>)
    ensures
        failure(name, error) == failure_text(name, error),
{
    reveal_strlit("Can't display ");
    reveal_strlit(": ");
    assert("Can't display "@ =~= seq![
        'C',
        'a',
        'n',
        '\'',
        't',
        ' ',
        'd',
        'i',
        's',
        'p',
        'l',
        'a',
        'y',
        ' ',
    ]);
    assert(": "@ =~= seq![':', ' ']);
}

/// Every position that has one after it can be captioned, and every failure announced.
pub proof fn law_every_caption_can_be_made(idx: usize, len: usize, name: &str, error: &str)
    requires
        idx < usize::MAX,
    ensures
        call_requires(caption_for, (idx, len, name)),
        call_requires(failure_message, (name, error)),
{
}

} // verus!
