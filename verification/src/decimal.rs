//! Decimal text for unsigned numbers: the canonical rendering of a number
//! and the value of a digit string, with an exact parser and printer.
//!
//! Identities, versions and sizes are all written with decimal components;
//! this module is the ground they stand on.

use vstd::prelude::*;
use vstd::arithmetic::div_mod::{lemma_fundamental_div_mod, lemma_fundamental_div_mod_converse};

verus! {

/// True when `c` is an ASCII decimal digit.
pub open spec fn is_digit(c: char) -> bool {
    '0' <= c && c <= '9'
}

/// The value of a digit character; meaningful only when `is_digit(c)`.
pub open spec fn digit_value(c: char) -> nat {
    (c as int - '0' as int) as nat
}

/// The digit character for a value below ten.
pub open spec fn digit_char(d: nat) -> char {
    if d == 0 {
        '0'
    } else if d == 1 {
        '1'
    } else if d == 2 {
        '2'
    } else if d == 3 {
        '3'
    } else if d == 4 {
        '4'
    } else if d == 5 {
        '5'
    } else if d == 6 {
        '6'
    } else if d == 7 {
        '7'
    } else if d == 8 {
        '8'
    } else {
        '9'
    }
}

/// A well-formed digit string: non-empty, digits only, and no leading
/// zero unless the string is exactly "0".
pub open spec fn digits_ok(s: Seq<char>) -> bool {
    &&& s.len() > 0
    &&& forall|i: int| 0 <= i < s.len() ==> is_digit(#[trigger] s[i])
    &&& (s.len() > 1 ==> s[0] != '0')
}

/// The number a digit string denotes, read from the left.
pub open spec fn dec_val(s: Seq<char>) -> nat
    decreases s.len(),
{
    if s.len() == 0 {
        0
    } else {
        dec_val(s.drop_last()) * 10 + digit_value(s.last())
    }
}

/// The canonical decimal rendering of a number.
pub open spec fn dec_repr(n: nat) -> Seq<char>
    decreases n,
{
    if n < 10 {
        seq![digit_char(n)]
    } else {
        dec_repr(n / 10).push(digit_char(n % 10))
    }
}

/// A digit value below ten renders as its digit character and reads back
/// as itself.
pub proof fn lemma_digit_char_value(d: nat)
    requires
        d < 10,
    ensures
        is_digit(digit_char(d)),
        digit_value(digit_char(d)) == d,
        d != 0 ==> digit_char(d) != '0',
{
}

/// The canonical rendering is a well-formed digit string.
pub proof fn lemma_dec_repr_digits_ok(n: nat)
    ensures
        digits_ok(dec_repr(n)),
        (dec_repr(n).len() > 1) <==> (n >= 10),
    decreases n,
{
    if n < 10 {
        lemma_digit_char_value(n);
        assert(dec_repr(n) =~= seq![digit_char(n)]);
    } else {
        lemma_dec_repr_digits_ok(n / 10);
        lemma_digit_char_value(n % 10);
        let prefix = dec_repr(n / 10);
        let whole = dec_repr(n);
        assert(whole =~= prefix + seq![digit_char(n % 10)]);
        assert(forall|i: int| 0 <= i < prefix.len() ==> whole[i] == prefix[i]);
        assert(whole[whole.len() - 1] == digit_char(n % 10));
        assert(n / 10 >= 1);
        if prefix.len() > 1 {
            assert(prefix[0] != '0');
        } else {
            lemma_digit_char_value(n / 10);
            assert(prefix[0] == digit_char(n / 10));
        }
        assert(whole[0] == prefix[0]);
    }
}

/// Reading back the canonical rendering gives the number again.
pub proof fn lemma_dec_repr_val(n: nat)
    ensures
        dec_val(dec_repr(n)) == n,
    decreases n,
{
    if n < 10 {
        lemma_digit_char_value(n);
        assert(dec_repr(n) =~= seq![digit_char(n)]);
        assert(dec_repr(n).drop_last() =~= Seq::<char>::empty());
        assert(dec_repr(n).last() == digit_char(n));
        assert(dec_val(Seq::<char>::empty()) == 0);
    } else {
        lemma_dec_repr_val(n / 10);
        lemma_digit_char_value(n % 10);
        assert(dec_repr(n).drop_last() =~= dec_repr(n / 10));
        assert(dec_repr(n).last() == digit_char(n % 10));
        assert(dec_val(dec_repr(n)) == dec_val(dec_repr(n / 10)) * 10 + digit_value(
            digit_char(n % 10),
        ));
        lemma_fundamental_div_mod(n as int, 10);
    }
}

/// One more digit multiplies the value by ten and adds the digit.
pub proof fn lemma_dec_val_step(s: Seq<char>, i: int)
    requires
        0 <= i < s.len(),
    ensures
        dec_val(s.take(i + 1)) == dec_val(s.take(i)) * 10 + digit_value(s[i]),
{
    assert(s.take(i + 1).drop_last() =~= s.take(i));
    assert(s.take(i + 1).last() == s[i]);
}

/// The value can only grow as more of the string is read.
pub proof fn lemma_dec_val_take_mono(s: Seq<char>, i: int, j: int)
    requires
        0 <= i <= j <= s.len(),
    ensures
        dec_val(s.take(i)) <= dec_val(s.take(j)),
    decreases j - i,
{
    if i < j {
        lemma_dec_val_take_mono(s, i, j - 1);
        lemma_dec_val_step(s, j - 1);
    }
}

/// A digit character is the digit character of its value.
pub proof fn lemma_digit_char_of_value(c: char)
    requires
        is_digit(c),
    ensures
        digit_value(c) < 10,
        digit_char(digit_value(c)) == c,
{
}

/// A well-formed digit string is the canonical rendering of its value:
/// the rendering relation is injective on well-formed strings.
pub proof fn lemma_dec_repr_canonical(s: Seq<char>)
    requires
        digits_ok(s),
    ensures
        dec_repr(dec_val(s)) == s,
    decreases s.len(),
{
    if s.len() == 1 {
        assert(s.drop_last() =~= Seq::<char>::empty());
        assert(dec_val(Seq::<char>::empty()) == 0);
        assert(s.last() == s[0]);
        assert(dec_val(s) == digit_value(s[0]));
        lemma_digit_char_of_value(s[0]);
        assert(dec_repr(dec_val(s)) =~= s);
    } else {
        let d = s.drop_last();
        assert(forall|i: int| 0 <= i < d.len() ==> d[i] == s[i]);
        assert(digits_ok(d));
        lemma_dec_repr_canonical(d);
        lemma_digit_char_of_value(s.last());
        lemma_digit_char_of_value(s[0]);
        // The leading digit is not zero, so the prefix value is at least one.
        lemma_dec_val_take_mono(d, 1, d.len() as int);
        assert(d.take(1).drop_last() =~= Seq::<char>::empty());
        assert(dec_val(Seq::<char>::empty()) == 0);
        assert(d.take(1).last() == d[0]);
        assert(dec_val(d.take(1)) == digit_value(d[0]));
        assert(d.take(d.len() as int) =~= d);
        assert(digit_value(d[0]) >= 1);
        assert(dec_val(d) >= 1);
        let v = dec_val(s);
        assert(v == dec_val(d) * 10 + digit_value(s.last()));
        assert(v >= 10);
        lemma_fundamental_div_mod_converse(
            v as int,
            10,
            dec_val(d) as int,
            digit_value(s.last()) as int,
        );
        assert(v / 10 == dec_val(d));
        assert(v % 10 == digit_value(s.last()));
        assert(dec_repr(v) == dec_repr(dec_val(d)).push(digit_char(digit_value(s.last()))));
        assert(dec_repr(v) =~= s);
    }
}

/// Powers of ten.
pub open spec fn pow10(n: nat) -> nat
    decreases n,
{
    if n == 0 {
        1
    } else {
        10 * pow10((n - 1) as nat)
    }
}

/// Powers of ten grow with the exponent.
pub proof fn lemma_pow10_mono(a: nat, b: nat)
    requires
        a <= b,
    ensures
        pow10(a) <= pow10(b),
        pow10(a) >= 1,
    decreases b,
{
    if b > 0 {
        if a == b {
            lemma_pow10_mono((a - 1) as nat, (b - 1) as nat);
        } else {
            lemma_pow10_mono(a, (b - 1) as nat);
        }
    }
}

/// A digit string's value stays below ten to its length.
pub proof fn lemma_dec_val_upper(s: Seq<char>)
    requires
        forall|i: int| 0 <= i < s.len() ==> is_digit(#[trigger] s[i]),
    ensures
        dec_val(s) < pow10(s.len() as nat),
    decreases s.len(),
{
    if s.len() > 0 {
        assert(forall|i: int| 0 <= i < s.drop_last().len() ==> s.drop_last()[i] == s[i]);
        lemma_dec_val_upper(s.drop_last());
        assert(is_digit(s.last()));
        assert(digit_value(s.last()) <= 9);
    }
}

/// Without a leading zero, a digit string's value reaches ten to one
/// below its length.
pub proof fn lemma_dec_val_lower(s: Seq<char>)
    requires
        s.len() > 0,
        forall|i: int| 0 <= i < s.len() ==> is_digit(#[trigger] s[i]),
        s[0] != '0',
    ensures
        dec_val(s) >= pow10((s.len() - 1) as nat),
    decreases s.len(),
{
    if s.len() == 1 {
        assert(s.drop_last() =~= Seq::<char>::empty());
        assert(dec_val(Seq::<char>::empty()) == 0);
        assert(s.last() == s[0]);
        assert(digit_value(s[0]) >= 1);
    } else {
        let dl = s.drop_last();
        assert(forall|i: int| 0 <= i < dl.len() ==> dl[i] == s[i]);
        lemma_dec_val_lower(dl);
    }
}

/// The value read from the left: the first digit scaled by ten to the
/// rest's length, plus the rest's value.
pub proof fn lemma_dec_val_first(s: Seq<char>)
    requires
        s.len() > 0,
    ensures
        dec_val(s) == digit_value(s[0]) * pow10((s.len() - 1) as nat) + dec_val(s.drop_first()),
    decreases s.len(),
{
    if s.len() == 1 {
        assert(s.drop_last() =~= Seq::<char>::empty());
        assert(s.drop_first() =~= Seq::<char>::empty());
        assert(dec_val(Seq::<char>::empty()) == 0);
        assert(s.last() == s[0]);
        assert(pow10(0) == 1);
        assert(digit_value(s[0]) * 1 == digit_value(s[0]));
    } else {
        let dl = s.drop_last();
        let df = s.drop_first();
        lemma_dec_val_first(dl);
        assert(dl[0] == s[0]);
        assert(dl.drop_first() =~= df.drop_last());
        assert(df.last() == s.last());
        let l = s.len() as int;
        let d0 = digit_value(s[0]);
        let p = pow10((l - 2) as nat);
        assert(dec_val(s) == dec_val(dl) * 10 + digit_value(s.last()));
        assert(dec_val(dl) == d0 * p + dec_val(df.drop_last()));
        assert(dec_val(df) == dec_val(df.drop_last()) * 10 + digit_value(s.last()));
        assert((d0 * p + dec_val(df.drop_last())) * 10 == d0 * (p * 10) + dec_val(df.drop_last())
            * 10) by (nonlinear_arith);
        assert(pow10((l - 1) as nat) == 10 * p);
        assert(d0 * (p * 10) == d0 * pow10((l - 1) as nat)) by (nonlinear_arith)
            requires
                pow10((l - 1) as nat) == 10 * p,
        ;
        assert(dec_val(s) == d0 * pow10((l - 1) as nat) + dec_val(df));
    }
}

/// Parse a digit string into a number. Returns the value exactly when the
/// string is a well-formed digit string whose value fits in `u64`.
pub fn parse_u64(s: &str) -> (r: Option<u64>)
    ensures
        r matches Some(v) ==> digits_ok(s@) && v as nat == dec_val(s@) && dec_val(s@)
            <= u64::MAX,
        r is None ==> !(digits_ok(s@) && dec_val(s@) <= u64::MAX),
{
    let n = s.unicode_len();
    if n == 0 {
        return None;
    }
    if n > 1 && s.get_char(0) == '0' {
        return None;
    }
    let mut acc: u64 = 0;
    let mut i: usize = 0;
    while i < n
        invariant
            0 < n == s@.len(),
            0 <= i <= n,
            forall|k: int| 0 <= k < i ==> is_digit(#[trigger] s@[k]),
            n > 1 ==> s@[0] != '0',
            acc as nat == dec_val(s@.take(i as int)),
        decreases n - i,
    {
        let c = s.get_char(i);
        if !('0' <= c && c <= '9') {
            return None;
        }
        let d: u64 = (c as u32 as u64) - ('0' as u32 as u64);
        proof {
            lemma_dec_val_step(s@, i as int);
        }
        let shifted = match acc.checked_mul(10) {
            Some(m) => m,
            None => {
                proof {
                    lemma_dec_val_take_mono(s@, i as int + 1, s@.len() as int);
                    assert(s@.take(s@.len() as int) =~= s@);
                }
                return None;
            },
        };
        let next = match shifted.checked_add(d) {
            Some(m) => m,
            None => {
                proof {
                    lemma_dec_val_take_mono(s@, i as int + 1, s@.len() as int);
                    assert(s@.take(s@.len() as int) =~= s@);
                }
                return None;
            },
        };
        acc = next;
        i = i + 1;
    }
    proof {
        assert(s@.take(n as int) =~= s@);
    }
    Some(acc)
}

/// A single digit as a string slice.
fn digit_str(d: u64) -> (r: &'static str)
    requires
        d < 10,
    ensures
        r@ =~= seq![digit_char(d as nat)],
{
    proof {
        reveal_strlit("0");
        reveal_strlit("1");
        reveal_strlit("2");
        reveal_strlit("3");
        reveal_strlit("4");
        reveal_strlit("5");
        reveal_strlit("6");
        reveal_strlit("7");
        reveal_strlit("8");
        reveal_strlit("9");
    }
    if d == 0 {
        "0"
    } else if d == 1 {
        "1"
    } else if d == 2 {
        "2"
    } else if d == 3 {
        "3"
    } else if d == 4 {
        "4"
    } else if d == 5 {
        "5"
    } else if d == 6 {
        "6"
    } else if d == 7 {
        "7"
    } else if d == 8 {
        "8"
    } else {
        "9"
    }
}

/// Render a number as its canonical decimal text.
pub fn u64_to_text(n: u64) -> (r: String)
    ensures
        r@ == dec_repr(n as nat),
    decreases n,
{
    if n < 10 {
        String::from_str(digit_str(n))
    } else {
        let mut s = u64_to_text(n / 10);
        s.append(digit_str(n % 10));
        proof {
            assert(dec_repr((n / 10) as nat).push(digit_char((n % 10) as nat)) =~= dec_repr(
                (n / 10) as nat,
            ) + seq![digit_char((n % 10) as nat)]);
        }
        s
    }
}

} // verus!
