//! Decimal numerals of indices: the form a scan writes an index in, and the form `str::parse` reads
//! one back from.

use vstd::prelude::*;

verus! {

/// The character of one decimal digit.
pub open spec fn digit_char(d: nat) -> char {
    (48 + d) as char
}

/// Whether `c` is an ASCII decimal digit.
pub open spec fn is_digit(c: char) -> bool {
    48 <= c as int <= 57
}

/// The decimal numeral of `x`, most significant digit first, with no leading zero.
pub open spec fn decimal(x: nat) -> Seq<char>
    decreases x,
{
    if x < 10 {
        seq![digit_char(x)]
    } else {
        decimal(x / 10).push(digit_char(x % 10))
    }
}

/// The number a run of decimal digits spells.
pub open spec fn digits_value(s: Seq<char>) -> nat
    decreases s.len(),
{
    if s.len() == 0 {
        0
    } else {
        digits_value(s.drop_last()) * 10 + (s.last() as int - 48) as nat
    }
}

/// Every character of `s` is a decimal digit.
pub open spec fn all_digits(s: Seq<char>) -> bool {
    forall|k: int| 0 <= k < s.len() ==> #[trigger] is_digit(s[k])
}

/// The digits an unsigned numeral is read from: an optional leading `+` is not one of them.
pub open spec fn unsigned_digits(s: Seq<char>) -> Seq<char> {
    if s.len() > 0 && s[0] == '+' {
        s.drop_first()
    } else {
        s
    }
}

/// `s` read as a `usize` the way Rust's `str::parse::<usize>` reads it: an optional `+`, then one or
/// more decimal digits and nothing else, spelling a value that fits.
pub open spec fn parse_usize(s: Seq<char>) -> Option<usize> {
    let d = unsigned_digits(s);
    if d.len() > 0 && all_digits(d) && digits_value(d) <= usize::MAX {
        Some(digits_value(d) as usize)
    } else {
        None
    }
}

/// `String::push`: appends one character.
#[verifier::external_body]
pub(crate) fn push_char(s: &mut String, c: char)
    ensures
        final(s)@ == old(s)@.push(c),
{
    s.push(c);
}

fn digit(d: u8) -> (c: char)
    requires
        d < 10,
    ensures
        c == digit_char(d as nat),
{
    (48u8 + d) as char
}

/// Appends the decimal numeral of `x`.
pub(crate) fn push_decimal(s: &mut String, x: usize)
    ensures
        final(s)@ == old(s)@ + decimal(x as nat),
    decreases x,
{
    if x >= 10 {
        push_decimal(s, x / 10);
    }
    let d = (x % 10) as u8;
    push_char(s, digit(d));
    assert(final(s)@ =~= old(s)@ + decimal(x as nat)) by {
        if x >= 10 {
            assert(decimal(x as nat) == decimal((x / 10) as nat).push(digit_char((x % 10) as nat)));
        }
    }
}

pub(crate) proof fn lemma_digits_value_push(s: Seq<char>, c: char)
    ensures
        digits_value(s.push(c)) == digits_value(s) * 10 + (c as int - 48) as nat,
{
    assert(s.push(c).drop_last() =~= s);
}

/// Over a run of digits, a longer prefix never spells a smaller number.
pub(crate) proof fn lemma_prefix_value_grows(d: Seq<char>, a: nat, b: nat)
    requires
        all_digits(d),
        a <= b <= d.len(),
    ensures
        digits_value(d.take(a as int)) <= digits_value(d.take(b as int)),
    decreases b - a,
{
    if a < b {
        lemma_prefix_value_grows(d, a, (b - 1) as nat);
        assert(d.take(b as int).drop_last() =~= d.take(b - 1));
        assert(is_digit(d[b - 1]));
    }
}

pub(crate) proof fn lemma_decimal_reads_back(x: nat)
    ensures
        decimal(x).len() > 0,
        all_digits(decimal(x)),
        digits_value(decimal(x)) == x,
        decimal(x)[0] != '+',
    decreases x,
{
    if x < 10 {
        assert(digit_char(x) as int == 48 + x);
        assert(decimal(x) =~= seq![digit_char(x)]);
        assert(decimal(x).drop_last() =~= Seq::<char>::empty());
        assert(digits_value(Seq::<char>::empty()) == 0);
    } else {
        lemma_decimal_reads_back(x / 10);
        let p = decimal(x / 10);
        assert(decimal(x) == p.push(digit_char(x % 10)));
        lemma_digits_value_push(p, digit_char(x % 10));
        assert(digit_char(x % 10) as int == 48 + x % 10);
        assert(decimal(x)[0] == p[0]);
        assert forall|k: int| 0 <= k < decimal(x).len() implies #[trigger] is_digit(decimal(x)[k]) by {
            if k < p.len() {
                assert(decimal(x)[k] == p[k]);
            }
        }
    }
}

} // verus!
