//! Character-level text utilities: decimal and hexadecimal digits, and
//! conversions between `String` and `Vec<char>`.
//!
//! All protocol documents handled by this crate are treated as sequences of
//! characters; these helpers give every module one exact notion of what a
//! digit run denotes.

use vstd::prelude::*;

verus! {

/// True for the ASCII decimal digits.
pub open spec fn is_digit(c: char) -> bool {
    48 <= (c as u32) && (c as u32) <= 57
}

/// The numeric value of an ASCII decimal digit.
pub open spec fn digit_val(c: char) -> nat {
    ((c as u32) - 48) as nat
}

/// The ASCII digit spelling a value below ten.
pub open spec fn digit_char(n: nat) -> char
    recommends
        n < 10,
{
    seq!['0', '1', '2', '3', '4', '5', '6', '7', '8', '9'][n as int]
}

/// The executable counterpart of [`digit_char`].
pub fn digit_to_char(d: u64) -> (c: char)
    requires
        d < 10,
    ensures
        c == digit_char(d as nat),
{
    match d {
        0 => '0',
        1 => '1',
        2 => '2',
        3 => '3',
        4 => '4',
        5 => '5',
        6 => '6',
        7 => '7',
        8 => '8',
        _ => '9',
    }
}

/// Every character of `s` is a decimal digit.
pub open spec fn all_digits(s: Seq<char>) -> bool {
    forall|i: int| 0 <= i < s.len() ==> is_digit(#[trigger] s[i])
}

/// The value denoted by a run of decimal digits, most significant first.
pub open spec fn dec_val(s: Seq<char>) -> nat
    decreases s.len(),
{
    if s.len() == 0 {
        0
    } else {
        dec_val(s.drop_last()) * 10 + digit_val(s.last())
    }
}

/// The canonical decimal spelling of `n`: no leading zeroes, except that
/// zero itself is spelled `"0"`.
pub open spec fn dec_chars(n: nat) -> Seq<char>
    decreases n,
{
    if n < 10 {
        seq![digit_char(n)]
    } else {
        dec_chars(n / 10).push(digit_char(n % 10))
    }
}

/// Each digit character spells its own value.
pub proof fn lemma_digit_char_val(n: nat)
    requires
        n < 10,
    ensures
        is_digit(digit_char(n)),
        digit_val(digit_char(n)) == n,
{
    if n == 0 {
        assert(digit_char(0) == '0');
    } else if n == 1 {
        assert(digit_char(1) == '1');
    } else if n == 2 {
        assert(digit_char(2) == '2');
    } else if n == 3 {
        assert(digit_char(3) == '3');
    } else if n == 4 {
        assert(digit_char(4) == '4');
    } else if n == 5 {
        assert(digit_char(5) == '5');
    } else if n == 6 {
        assert(digit_char(6) == '6');
    } else if n == 7 {
        assert(digit_char(7) == '7');
    } else if n == 8 {
        assert(digit_char(8) == '8');
    } else {
        assert(digit_char(9) == '9');
    }
}

pub proof fn lemma_dec_chars_digits(n: nat)
    ensures
        all_digits(dec_chars(n)),
        dec_chars(n).len() >= 1,
        dec_chars(n)[0] == digit_char(n) || n >= 10,
    decreases n,
{
    if n < 10 {
        assert(dec_chars(n) =~= seq![digit_char(n)]);
        lemma_digit_char_val(n);
    } else {
        lemma_dec_chars_digits(n / 10);
        lemma_digit_char_val(n % 10);
        assert forall|i: int| 0 <= i < dec_chars(n).len() implies is_digit(
            #[trigger] dec_chars(n)[i],
        ) by {
            if i < dec_chars(n / 10).len() {
                assert(dec_chars(n)[i] == dec_chars(n / 10)[i]);
            }
        }
    }
}

/// `dec_chars` spells the value it was given.
pub proof fn lemma_dec_val_of_dec_chars(n: nat)
    ensures
        dec_val(dec_chars(n)) == n,
    decreases n,
{
    if n < 10 {
        let s = dec_chars(n);
        assert(s =~= seq![digit_char(n)]);
        assert(s.drop_last() =~= Seq::<char>::empty());
        lemma_digit_char_val(n);
        assert(s.len() == 1);
        assert(s.last() == digit_char(n));
        assert(dec_val(s) == dec_val(s.drop_last()) * 10 + digit_val(s.last()));
        assert(dec_val(s.drop_last()) == 0);
    } else {
        lemma_dec_val_of_dec_chars(n / 10);
        let s = dec_chars(n);
        assert(s == dec_chars(n / 10).push(digit_char(n % 10)));
        assert(s.len() == dec_chars(n / 10).len() + 1);
        assert(s.drop_last() =~= dec_chars(n / 10));
        assert(s.last() == digit_char(n % 10));
        lemma_digit_char_val(n % 10);
        assert(dec_val(s) == dec_val(s.drop_last()) * 10 + digit_val(s.last()));
        assert(dec_val(s) == (n / 10) * 10 + n % 10);
        assert(n == (n / 10) * 10 + n % 10) by (nonlinear_arith);
    }
}

/// The canonical spelling has no leading zero unless it is `"0"` alone.
pub proof fn lemma_dec_chars_no_leading_zero(n: nat)
    ensures
        dec_chars(n).len() > 1 ==> dec_chars(n)[0] != '0',
        n == 0 ==> dec_chars(n) =~= seq!['0'],
        n > 0 ==> digit_val(dec_chars(n)[0]) > 0,
    decreases n,
{
    if n < 10 {
        lemma_digit_char_val(n);
        if n > 0 {
            assert(digit_char(n) != '0') by {
                lemma_digit_char_val(n);
                assert(digit_val('0') == 0);
            }
        }
    } else {
        lemma_dec_chars_no_leading_zero(n / 10);
        assert(dec_chars(n)[0] == dec_chars(n / 10)[0]);
        if dec_chars(n).len() > 1 {
            if dec_chars(n / 10).len() == 1 {
                assert(n / 10 > 0);
            }
        }
    }
}

/// Appending digits multiplies the prefix value by a power of ten.
pub proof fn lemma_dec_val_append(s: Seq<char>, t: Seq<char>)
    ensures
        dec_val(s + t) >= dec_val(s),
    decreases t.len(),
{
    if t.len() == 0 {
        assert(s + t =~= s);
    } else {
        lemma_dec_val_append(s, t.drop_last());
        assert((s + t).drop_last() =~= s + t.drop_last());
        assert(dec_val(s + t) == dec_val(s + t.drop_last()) * 10 + digit_val((s + t).last()));
        assert(dec_val(s + t.drop_last()) * 10 >= dec_val(s + t.drop_last())) by (nonlinear_arith)
            requires
                dec_val(s + t.drop_last()) >= 0,
        ;
    }
}

/// Converts a character run to the value it denotes, if it is a non-empty
/// digit run whose value fits in a `u64`.
pub fn parse_u64_digits(s: &[char], from: usize, to: usize) -> (r: Option<u64>)
    requires
        from <= to <= s@.len(),
    ensures
        ({
            let part = s@.subrange(from as int, to as int);
            if from < to && all_digits(part) && dec_val(part) <= u64::MAX {
                r == Some(dec_val(part) as u64)
            } else {
                r is None
            }
        }),
{
    if from >= to {
        return None;
    }
    let mut acc: u64 = 0;
    let mut i: usize = from;
    while i < to
        invariant
            from <= i <= to <= s@.len(),
            all_digits(s@.subrange(from as int, i as int)),
            acc == dec_val(s@.subrange(from as int, i as int)),
        decreases to - i,
    {
        let c = s[i];
        let u = c as u32;
        if !(48 <= u && u <= 57) {
            proof {
                let part = s@.subrange(from as int, to as int);
                assert(part[i - from] == s@[i as int]);
                assert(!is_digit(part[i - from]));
            }
            return None;
        }
        let d: u64 = (u - 48) as u64;
        proof {
            assert(s@.subrange(from as int, i + 1).drop_last() =~= s@.subrange(
                from as int,
                i as int,
            ));
            assert(s@.subrange(from as int, i + 1).last() == s@[i as int]);
        }
        if acc > (u64::MAX - d) / 10 {
            proof {
                let big = s@.subrange(from as int, i + 1);
                let part = s@.subrange(from as int, to as int);
                assert(dec_val(big) == acc * 10 + d);
                assert(acc * 10 + d > u64::MAX) by (nonlinear_arith)
                    requires
                        acc > (u64::MAX - d) / 10,
                        0 <= d <= 9,
                        acc <= u64::MAX,
                ;
                assert(part =~= big + s@.subrange(i + 1, to as int));
                lemma_dec_val_append(big, s@.subrange(i + 1, to as int));
            }
            return None;
        }
        acc = acc * 10 + d;
        i = i + 1;
    }
    proof {
        assert(s@.subrange(from as int, to as int) =~= s@.subrange(from as int, i as int));
    }
    Some(acc)
}

/// Appends the canonical decimal spelling of `n` to `out`.
pub fn push_u64_digits(n: u64, out: &mut Vec<char>)
    ensures
        final(out)@ == old(out)@ + dec_chars(n as nat),
{
    if n == 0 {
        out.push('0');
        proof {
            assert(dec_chars(0) =~= seq![digit_char(0)]);
            assert(digit_char(0) == '0');
            assert(out@ =~= old(out)@ + dec_chars(0));
        }
        return ;
    }
    let mut rev: Vec<char> = Vec::new();
    let mut m: u64 = n;
    proof {
        assert(dec_chars(n as nat) =~= dec_chars(n as nat) + rev@.reverse());
    }
    while m > 0
        invariant
            m > 0 ==> dec_chars(n as nat) == dec_chars(m as nat) + rev@.reverse(),
            m == 0 ==> dec_chars(n as nat) == rev@.reverse(),
        decreases m,
    {
        let ghost rev1 = rev@;
        let d: u64 = m % 10;
        let c: char = digit_to_char(d);
        rev.push(c);
        let old_m = m;
        m = m / 10;
        proof {
            assert(rev@.reverse() =~= seq![c] + rev1.reverse());
            if old_m < 10 {
                assert(m == 0);
                assert(dec_chars(old_m as nat) =~= seq![digit_char(old_m as nat)]);
                assert((old_m % 10) as nat == old_m as nat);
                assert(dec_chars(n as nat) =~= rev@.reverse());
            } else {
                assert(dec_chars(old_m as nat) == dec_chars(m as nat).push(c));
                assert(dec_chars(old_m as nat) =~= dec_chars(m as nat) + seq![c]);
                assert(dec_chars(n as nat) =~= dec_chars(m as nat) + rev@.reverse());
            }
        }
    }
    let mut j: usize = rev.len();
    proof {
        assert(out@ + rev@.reverse().subrange(0, 0) =~= out@);
    }
    let ghost out0 = out@;
    while j > 0
        invariant
            j <= rev@.len(),
            out@ == out0 + rev@.reverse().subrange(0, rev@.len() - j),
        decreases j,
    {
        j = j - 1;
        let c = rev[j];
        out.push(c);
        proof {
            assert(rev@.reverse()[rev@.len() - j - 1] == rev@[j as int]);
            assert(out0 + rev@.reverse().subrange(0, rev@.len() - j) =~= (out0
                + rev@.reverse().subrange(0, rev@.len() - j - 1)).push(rev@[j as int]));
        }
    }
    proof {
        assert(rev@.reverse().subrange(0, rev@.len() as int) =~= rev@.reverse());
        assert(out@ == out0 + dec_chars(n as nat));
    }
}

/// The characters of `s`, in order.
pub fn str_to_chars(s: &str) -> (r: Vec<char>)
    ensures
        r@ == s@,
{
    let n = s.unicode_len();
    let mut out: Vec<char> = Vec::new();
    let mut i: usize = 0;
    while i < n
        invariant
            i <= n == s@.len(),
            out@ == s@.subrange(0, i as int),
        decreases n - i,
    {
        let c = s.get_char(i);
        out.push(c);
        proof {
            assert(s@.subrange(0, i + 1) =~= s@.subrange(0, i as int).push(s@[i as int]));
        }
        i = i + 1;
    }
    proof {
        assert(s@.subrange(0, n as int) =~= s@);
    }
    out
}

/// Relies on `core::iter::Iterator::collect` for `String`: collecting the
/// characters of a `Vec<char>` yields the string with exactly those
/// characters.
#[verifier::external_body]
pub(crate) fn chars_to_string(v: &Vec<char>) -> (r: String)
    ensures
        r@ == v@,
{
    v.iter().collect()
}

/// Relies on `char::from_u32`: it returns the character with scalar value
/// `u` unless `u` is a surrogate code point or above the Unicode maximum.
#[verifier::external_body]
pub(crate) fn char_from_u32(u: u32) -> (r: Option<char>)
    ensures
        match r {
            Some(c) => c as u32 == u,
            None => 0xD800 <= u < 0xE000 || u > 0x10FFFF,
        },
{
    char::from_u32(u)
}


/// A digit character is the spelling of its value.
pub proof fn lemma_digit_char_of_val(c: char)
    requires
        is_digit(c),
    ensures
        digit_char(digit_val(c)) == c,
{
    lemma_digit_char_val(digit_val(c));
    vstd::utf8::char_u32_cast(c, c as u32);
    vstd::utf8::char_u32_cast(digit_char(digit_val(c)), c as u32);
}

/// A digit run that starts with a nonzero digit denotes a positive value.
pub proof fn lemma_dec_val_pos(s: Seq<char>)
    requires
        all_digits(s),
        s.len() > 0,
        digit_val(s[0]) > 0,
    ensures
        dec_val(s) > 0,
    decreases s.len(),
{
    if s.len() == 1 {
        assert(s.drop_last() =~= Seq::<char>::empty());
        assert(s.last() == s[0]);
    } else {
        assert(s.drop_last()[0] == s[0]);
        assert(forall|x: int| 0 <= x < s.drop_last().len() ==> is_digit(
            #[trigger] s.drop_last()[x],
        ));
        lemma_dec_val_pos(s.drop_last());
        assert(dec_val(s) == dec_val(s.drop_last()) * 10 + digit_val(s.last()));
        assert(dec_val(s.drop_last()) * 10 >= 10) by (nonlinear_arith)
            requires
                dec_val(s.drop_last()) >= 1,
        ;
    }
}

/// A canonical digit run spells its own value: no other text prints the
/// same number.
pub proof fn lemma_dec_chars_of_val(s: Seq<char>)
    requires
        all_digits(s),
        s.len() > 0,
        s.len() > 1 ==> s[0] != '0',
    ensures
        dec_chars(dec_val(s)) == s,
    decreases s.len(),
{
    if s.len() == 1 {
        assert(s.drop_last() =~= Seq::<char>::empty());
        assert(s.last() == s[0]);
        assert(dec_val(s.drop_last()) == 0);
        assert(dec_val(s) == dec_val(s.drop_last()) * 10 + digit_val(s.last()));
        assert(dec_val(s) == digit_val(s[0]));
        lemma_digit_char_of_val(s[0]);
        assert(dec_chars(dec_val(s)) =~= seq![digit_char(digit_val(s[0]))]);
        assert(dec_chars(dec_val(s)) =~= s);
    } else {
        let d = s.drop_last();
        assert(d[0] == s[0]);
        assert(forall|x: int| 0 <= x < d.len() ==> is_digit(#[trigger] d[x]));
        lemma_dec_chars_of_val(d);
        assert(is_digit(s[0]));
        assert(digit_val(s[0]) > 0) by {
            if digit_val(s[0]) == 0 {
                lemma_digit_char_of_val(s[0]);
                lemma_digit_char_val(0);
                assert(s[0] == '0');
            }
        }
        lemma_dec_val_pos(d);
        assert(dec_val(s) == dec_val(d) * 10 + digit_val(s.last()));
        assert(dec_val(s) >= 10) by (nonlinear_arith)
            requires
                dec_val(d) >= 1,
                dec_val(s) == dec_val(d) * 10 + digit_val(s.last()),
                digit_val(s.last()) >= 0,
        ;
        assert(dec_val(s) / 10 == dec_val(d) && dec_val(s) % 10 == digit_val(s.last()))
            by (nonlinear_arith)
            requires
                dec_val(s) == dec_val(d) * 10 + digit_val(s.last()),
                0 <= digit_val(s.last()) < 10,
        ;
        lemma_digit_char_of_val(s.last());
        assert(dec_chars(dec_val(s)) == dec_chars(dec_val(d)).push(digit_char(dec_val(s) % 10)));
        assert(dec_chars(dec_val(s)) =~= s);
    }
}

} // verus!
