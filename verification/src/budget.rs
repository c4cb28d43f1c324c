//! How a motion budget names the joint that binds it. The demand scan works by index and names the
//! worst joint "joint {i}"; a caller that has the model resolves that name through its own joint names,
//! and reading the index back out of a scan's name gives the index the scan wrote.

use vstd::prelude::*;
use crate::numeral::{
    all_digits, decimal, digits_value, is_digit, lemma_decimal_reads_back, lemma_digits_value_push,
    lemma_prefix_value_grows, parse_usize, push_char, push_decimal, unsigned_digits,
};

verus! {

/// The prefix a scan puts before a joint's index.
pub open spec fn joint_prefix() -> Seq<char> {
    seq!['j', 'o', 'i', 'n', 't', ' ']
}

/// The name the scan gives joint `i`: "joint " and the index in decimal.
pub open spec fn joint_name(i: nat) -> Seq<char> {
    joint_prefix() + decimal(i)
}

/// The joint a binding channel names, when it is still in the scan's own form.
pub open spec fn binding_joint(b: Seq<char>) -> Option<usize> {
    if b.len() >= 6 && b.take(6) == joint_prefix() {
        parse_usize(b.skip(6))
    } else {
        None
    }
}

/// The binding channel after resolution through a model's joint names in the scan's chain order: a
/// scan name whose index has a name takes that name, anything else keeps the form it had.
pub open spec fn resolved_binding(b: Seq<char>, names: Seq<String>) -> Seq<char> {
    match binding_joint(b) {
        Some(i) => if i < names.len() {
            names[i as int]@
        } else {
            b
        },
        None => b,
    }
}

/// The name the demand scan gives joint `i`.
pub fn joint_label(i: usize) -> (name: String)
    ensures
        name@ == joint_name(i as nat),
        name@.len() > 6,
        name@.take(6) == seq!['j', 'o', 'i', 'n', 't', ' '],
        name@.skip(6) == decimal(i as nat),
        binding_joint(name@) == Some(i),
{
    let mut s = String::new();
    push_char(&mut s, 'j');
    push_char(&mut s, 'o');
    push_char(&mut s, 'i');
    push_char(&mut s, 'n');
    push_char(&mut s, 't');
    push_char(&mut s, ' ');
    assert(s@ =~= joint_prefix());
    push_decimal(&mut s, i);
    proof {
        lemma_joint_name_reads_back(i);
        lemma_decimal_reads_back(i as nat);
        assert(s@.skip(6) =~= decimal(i as nat));
        assert(s@.take(6) =~= joint_prefix());
    }
    s
}

/// The joint index named by a binding channel in the scan's own form "joint {i}"; `None` when nothing
/// binds ("none") or the name has already been resolved through a model's names.
pub fn binding_index(binding: &str) -> (r: Option<usize>)
    ensures
        r == binding_joint(binding@),
        r is Some ==> binding@.len() > 6 && binding@.take(6) == seq!['j', 'o', 'i', 'n', 't', ' '],
{
    let len = binding.unicode_len();
    if len < 6 {
        return None;
    }
    if binding.get_char(0) != 'j' || binding.get_char(1) != 'o' || binding.get_char(2) != 'i'
        || binding.get_char(3) != 'n' || binding.get_char(4) != 't' || binding.get_char(5) != ' ' {
        proof {
            assert(binding@.take(6) != joint_prefix()) by {
                if binding@.take(6) == joint_prefix() {
                    assert(binding@.take(6)[0] == 'j');
                    assert(binding@.take(6)[1] == 'o');
                    assert(binding@.take(6)[2] == 'i');
                    assert(binding@.take(6)[3] == 'n');
                    assert(binding@.take(6)[4] == 't');
                    assert(binding@.take(6)[5] == ' ');
                }
            }
        }
        return None;
    }
    assert(binding@.take(6) =~= joint_prefix());
    let ghost rest = binding@.skip(6);
    let mut i: usize = 6;
    if len > 6 && binding.get_char(6) == '+' {
        i = 7;
        assert(rest.drop_first() =~= binding@.skip(7));
    }
    let ghost d = binding@.skip(i as int);
    assert(d == unsigned_digits(rest));
    if i == len {
        assert(d.len() == 0);
        return None;
    }
    let mut acc: usize = 0;
    let mut k: usize = i;
    assert(d.take(0) =~= Seq::<char>::empty());
    while k < len
        invariant
            len == binding@.len(),
            i <= k <= len,
            d == binding@.skip(i as int),
            binding@.len() >= 6,
            binding@.take(6) == joint_prefix(),
            d == unsigned_digits(binding@.skip(6)),
            all_digits(d.take(k - i)),
            acc == digits_value(d.take(k - i)),
        decreases len - k,
    {
        let c = binding.get_char(k);
        assert(d[k - i] == c);
        let cu = c as u32;
        if cu < 48 || cu > 57 {
            assert(!is_digit(d[k - i]));
            assert(!all_digits(d));
            return None;
        }
        let dv = (cu - 48) as usize;
        assert(d.take(k - i + 1) =~= d.take(k - i).push(c));
        proof {
            lemma_digits_value_push(d.take(k - i), c);
        }
        assert(all_digits(d.take(k - i + 1)));
        match acc.checked_mul(10) {
            None => {
                proof {
                    if all_digits(d) {
                        lemma_prefix_value_grows(d, (k - i + 1) as nat, d.len());
                        assert(d.take(d.len() as int) =~= d);
                    }
                }
                return None;
            },
            Some(t) => match t.checked_add(dv) {
                None => {
                    proof {
                        if all_digits(d) {
                            lemma_prefix_value_grows(d, (k - i + 1) as nat, d.len());
                            assert(d.take(d.len() as int) =~= d);
                        }
                    }
                    return None;
                },
                Some(v) => {
                    acc = v;
                },
            },
        }
        k += 1;
    }
    assert(d.take(k - i) =~= d);
    Some(acc)
}

/// The binding channel resolved through a model's own joint names in the scan's chain order: a scan
/// name whose index is inside the list takes the model's name; an index past the list, a channel that
/// binds nothing, or one already resolved keeps the form it had.
pub fn resolve_binding(binding: &String, names: &[String]) -> (r: String)
    ensures
        r@ == resolved_binding(binding@, names@),
        forall|i: usize|
            binding_joint(binding@) == Some(i) && i < names@.len() ==> r@ == #[trigger] names@[i as int]@,
        binding_joint(binding@) is None ==> r@ == binding@,
        binding_joint(binding@) is Some && binding_joint(binding@)->0 >= names@.len() ==> r@ == binding@,
{
    match binding_index(binding.as_str()) {
        Some(i) => {
            if i < names.len() {
                names[i].clone()
            } else {
                binding.clone()
            }
        },
        None => binding.clone(),
    }
}

/// Reading the joint index back out of the name the scan gives joint `i` gives `i`: the demand scan's
/// names and the budget's reading of them are one convention.
pub proof fn lemma_joint_name_reads_back(i: usize)
    ensures
        binding_joint(joint_name(i as nat)) == Some(i),
{
    let b = joint_name(i as nat);
    lemma_decimal_reads_back(i as nat);
    assert(b.take(6) =~= joint_prefix());
    assert(b.skip(6) =~= decimal(i as nat));
}

/// A binding resolved through names that are not themselves in the scan's form reads as no joint, so
/// resolving it a second time through the same names leaves it as it is.
pub proof fn lemma_resolving_twice_is_resolving_once(b: Seq<char>, names: Seq<String>)
    requires
        forall|k: int| 0 <= k < names.len() ==> binding_joint(#[trigger] names[k]@) is None,
    ensures
        resolved_binding(resolved_binding(b, names), names) == resolved_binding(b, names),
{
}

proof fn lemma_leading_zero_spells_the_same(d: Seq<char>)
    ensures
        digits_value(seq!['0'] + d) == digits_value(d),
    decreases d.len(),
{
    if d.len() > 0 {
        lemma_leading_zero_spells_the_same(d.drop_last());
        assert((seq!['0'] + d).drop_last() =~= seq!['0'] + d.drop_last());
        assert((seq!['0'] + d).last() == d.last());
    } else {
        assert(seq!['0'] + d =~= seq!['0']);
        assert(seq!['0'].drop_last() =~= Seq::<char>::empty());
        assert(digits_value(Seq::<char>::empty()) == 0);
        assert('0' as int == 48);
        assert(seq!['0'].last() == '0');
    }
}

/// The index is read as `str::parse::<usize>` reads one: a leading `+` and leading zeros name the same
/// joint, and a name with any other character after "joint " (past an optional leading `+`) names none.
pub proof fn lemma_binding_reads_as_usize_parse(i: usize, b: Seq<char>)
    ensures
        binding_joint(seq!['j', 'o', 'i', 'n', 't', ' ', '+'] + decimal(i as nat)) == Some(i),
        binding_joint(seq!['j', 'o', 'i', 'n', 't', ' ', '0'] + decimal(i as nat)) == Some(i),
        b.len() <= 6 ==> binding_joint(b) is None,
        (exists|k: int| 6 < k < b.len() && !(48 <= #[trigger] b[k] as int <= 57)) ==> binding_joint(b) is None,
        b.len() > 6 && b[6] != '+' && !(48 <= b[6] as int <= 57) ==> binding_joint(b) is None,
{
    lemma_decimal_reads_back(i as nat);
    let d = decimal(i as nat);
    let bp = seq!['j', 'o', 'i', 'n', 't', ' ', '+'] + d;
    assert(bp.take(6) =~= joint_prefix());
    assert(bp.skip(6).drop_first() =~= d);
    let bz = seq!['j', 'o', 'i', 'n', 't', ' ', '0'] + d;
    assert(bz.take(6) =~= joint_prefix());
    assert(bz.skip(6) =~= seq!['0'] + d);
    lemma_leading_zero_spells_the_same(d);
    assert(all_digits(seq!['0'] + d)) by {
        assert forall|k: int| 0 <= k < (seq!['0'] + d).len() implies #[trigger] is_digit(
            (seq!['0'] + d)[k],
        ) by {
            if k > 0 {
                assert((seq!['0'] + d)[k] == d[k - 1]);
            }
        }
    }
    if exists|k: int| 6 < k < b.len() && !(48 <= #[trigger] b[k] as int <= 57) {
        let k = choose|k: int| 6 < k < b.len() && !(48 <= #[trigger] b[k] as int <= 57);
        if b.len() >= 6 && b.take(6) == joint_prefix() {
            let s = b.skip(6);
            let u = unsigned_digits(s);
            if s.len() > 0 && s[0] == '+' {
                assert(u[k - 7] == b[k]);
                assert(!is_digit(u[k - 7]));
            } else {
                assert(u[k - 6] == b[k]);
                assert(!is_digit(u[k - 6]));
            }
        }
    }
    if b.len() > 6 && b[6] != '+' && !(48 <= b[6] as int <= 57) {
        if b.take(6) == joint_prefix() {
            let u = unsigned_digits(b.skip(6));
            assert(u[0] == b[6]);
            assert(!is_digit(u[0]));
        }
    }
}

} // verus!
