//! Small verified string helpers: decimal formatting of unsigned integers
//! and lexicographic comparison of strings.

use vstd::prelude::*;

verus! {

/// The character for one decimal digit.
pub open spec fn digit_char(d: int) -> char
    recommends
        0 <= d < 10,
{
    if d == 0 { '0' }
    else if d == 1 { '1' }
    else if d == 2 { '2' }
    else if d == 3 { '3' }
    else if d == 4 { '4' }
    else if d == 5 { '5' }
    else if d == 6 { '6' }
    else if d == 7 { '7' }
    else if d == 8 { '8' }
    else { '9' }
}

/// The decimal digit string of `n`, without sign or leading zeros
/// (`dec_digits(0) == seq!['0']`).
pub open spec fn dec_digits(n: nat) -> Seq<char>
    decreases n,
{
    if n < 10 {
        seq![digit_char(n as int)]
    } else {
        dec_digits(n / 10) + seq![digit_char((n % 10) as int)]
    }
}

/// Appends the character of decimal digit `d` to `s`.
fn push_digit(s: &mut String, d: u64)
    requires
        d < 10,
    ensures
        final(s)@ == old(s)@ + seq![digit_char(d as int)],
{
    proof {
        reveal_strlit("0");
        reveal_strlit("1");
        reveal_strlit("2");
        reveal_strlit("3");
        reveal_strlit("4");
        reveal_strlit("5");
        reveal_strlit("6");
        reveal_strlit("7");
        reveal_strlit("8");
        reveal_strlit("9");
    }
    match d {
        0 => s.append("0"),
        1 => s.append("1"),
        2 => s.append("2"),
        3 => s.append("3"),
        4 => s.append("4"),
        5 => s.append("5"),
        6 => s.append("6"),
        7 => s.append("7"),
        8 => s.append("8"),
        _ => s.append("9"),
    }
    assert(final(s)@ =~= old(s)@ + seq![digit_char(d as int)]);
}

/// Appends the decimal digit string of `n` to `s`.
pub fn append_u64(s: &mut String, n: u64)
    ensures
        final(s)@ == old(s)@ + dec_digits(n as nat),
{
    let mut rev: Vec<u64> = Vec::new();
    let mut m: u64 = n;
    loop
        invariant_except_break
            m == 0 ==> (n == 0 && rev@.len() == 0),
            m > 0 ==> dec_digits(n as nat) == dec_digits(m as nat)
                + Seq::new(rev@.len(), |j: int| digit_char(rev@[rev@.len() - 1 - j] as int)),
        invariant
            forall|j: int| 0 <= j < rev@.len() ==> rev@[j] < 10,
        ensures
            dec_digits(n as nat) == Seq::new(rev@.len(), |j: int| digit_char(
                rev@[rev@.len() - 1 - j] as int)),
        decreases m,
    {
        let ghost prev = rev@;
        let ghost m0 = m;
        let d: u64 = m % 10;
        rev.push(d);
        let next = m / 10;
        proof {
            let cur = Seq::new(rev@.len(), |j: int| digit_char(rev@[rev@.len() - 1 - j] as int));
            let old_tail = Seq::new(prev.len(), |j: int| digit_char(prev[prev.len() - 1 - j] as int));
            assert(cur =~= seq![digit_char(d as int)] + old_tail);
            if m0 == 0 {
                assert(n == 0 && d == 0 && prev.len() == 0);
                assert(dec_digits(n as nat) =~= cur);
            } else if next == 0 {
                assert(m0 < 10);
                assert(dec_digits(m0 as nat) =~= seq![digit_char(d as int)]);
                assert(dec_digits(n as nat) =~= cur);
            } else {
                assert(dec_digits(m0 as nat) =~= dec_digits(next as nat) + seq![digit_char(d as int)]);
                assert(dec_digits(n as nat) =~= dec_digits(next as nat) + cur);
            }
        }
        m = next;
        if m == 0 {
            break;
        }
    }
    let n_digits = rev.len();
    let mut i: usize = 0;
    while i < n_digits
        invariant
            n_digits == rev@.len(),
            i <= n_digits,
            forall|j: int| 0 <= j < rev@.len() ==> rev@[j] < 10,
            dec_digits(n as nat) == Seq::new(rev@.len(), |j: int| digit_char(
                rev@[rev@.len() - 1 - j] as int)),
            s@ == old(s)@ + dec_digits(n as nat).take(i as int),
        decreases n_digits - i,
    {
        push_digit(s, rev[n_digits - 1 - i]);
        proof {
            let full = dec_digits(n as nat);
            assert(full[i as int] == digit_char(rev@[rev@.len() - 1 - i] as int));
            assert(full.take(i + 1) =~= full.take(i as int) + seq![full[i as int]]);
        }
        i = i + 1;
    }
    assert(dec_digits(n as nat).take(n_digits as int) =~= dec_digits(n as nat));
}

/// Strict lexicographic order on character sequences, by Unicode scalar
/// value; a strict prefix sorts first.
pub open spec fn seq_lt(a: Seq<char>, b: Seq<char>) -> bool
    decreases b.len(),
{
    if b.len() == 0 {
        false
    } else if a.len() == 0 {
        true
    } else if (a[0] as u32) < (b[0] as u32) {
        true
    } else if (a[0] as u32) > (b[0] as u32) {
        false
    } else {
        seq_lt(a.drop_first(), b.drop_first())
    }
}

/// Non-strict companion of [`seq_lt`].
pub open spec fn seq_le(a: Seq<char>, b: Seq<char>) -> bool {
    a == b || seq_lt(a, b)
}

fn str_lt_from(a: &str, b: &str, i: usize) -> (r: bool)
    requires
        i <= a@.len(),
        i <= b@.len(),
    ensures
        r == seq_lt(a@.skip(i as int), b@.skip(i as int)),
    decreases b@.len() - i,
{
    let alen = a.unicode_len();
    let blen = b.unicode_len();
    if i == blen {
        false
    } else if i == alen {
        true
    } else {
        let ca = a.get_char(i);
        let cb = b.get_char(i);
        proof {
            assert(a@.skip(i as int)[0] == a@[i as int]);
            assert(b@.skip(i as int)[0] == b@[i as int]);
            assert(a@.skip(i as int).drop_first() =~= a@.skip(i + 1));
            assert(b@.skip(i as int).drop_first() =~= b@.skip(i + 1));
        }
        if (ca as u32) < (cb as u32) {
            true
        } else if (ca as u32) > (cb as u32) {
            false
        } else {
            str_lt_from(a, b, i + 1)
        }
    }
}

/// Strict lexicographic comparison of two strings.
pub fn str_lt(a: &str, b: &str) -> (r: bool)
    ensures
        r == seq_lt(a@, b@),
{
    let r = str_lt_from(a, b, 0);
    proof {
        assert(a@.skip(0) =~= a@);
        assert(b@.skip(0) =~= b@);
    }
    r
}

/// Character-wise equality of two string slices.
pub fn str_eq(a: &str, b: &str) -> (r: bool)
    ensures
        r == (a@ == b@),
{
    let alen = a.unicode_len();
    let blen = b.unicode_len();
    if alen != blen {
        assert(a@ != b@);
        return false;
    }
    let mut i: usize = 0;
    while i < alen
        invariant
            alen == a@.len() == b@.len(),
            i <= alen,
            forall|j: int| 0 <= j < i ==> a@[j] == b@[j],
        decreases alen - i,
    {
        if a.get_char(i) != b.get_char(i) {
            return false;
        }
        i = i + 1;
    }
    assert(a@ =~= b@);
    true
}

} // verus!
