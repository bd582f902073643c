//! Fixed-width decimal numerals: the building block of the token payload
//! format. A number is written as exactly twenty decimal digits, most
//! significant first, so every field of the payload sits at a fixed offset
//! and the encoding of a claims record is unambiguous.

use vstd::prelude::*;
use vstd::arithmetic::div_mod::{
    lemma_div_denominator, lemma_fundamental_div_mod, lemma_mod_division_less_than_divisor,
    lemma_div_pos_is_pos, lemma_div_is_ordered,
};
use vstd::arithmetic::mul::lemma_mul_inequality;

verus! {

/// The character for one decimal digit.
pub open spec fn digit_char(d: int) -> char {
    if d == 0 {
        '0'
    } else if d == 1 {
        '1'
    } else if d == 2 {
        '2'
    } else if d == 3 {
        '3'
    } else if d == 4 {
        '4'
    } else if d == 5 {
        '5'
    } else if d == 6 {
        '6'
    } else if d == 7 {
        '7'
    } else if d == 8 {
        '8'
    } else {
        '9'
    }
}

/// True of the ten decimal digit characters.
pub open spec fn is_digit_char(c: char) -> bool {
    c == '0' || c == '1' || c == '2' || c == '3' || c == '4' || c == '5' || c == '6' || c == '7'
        || c == '8' || c == '9'
}

/// Ten to the power `e`.
pub open spec fn pow10(e: nat) -> int
    decreases e,
{
    if e == 0 {
        1
    } else {
        10 * pow10((e - 1) as nat)
    }
}

/// The last `width` decimal digits of `v`, most significant first.
pub open spec fn num_chars(v: int, width: nat) -> Seq<char>
    decreases width,
{
    if width == 0 {
        Seq::empty()
    } else {
        num_chars(v / 10, (width - 1) as nat).push(digit_char(v % 10))
    }
}

pub proof fn lemma_pow10_pos(e: nat)
    ensures
        pow10(e) >= 1,
    decreases e,
{
    if e > 0 {
        lemma_pow10_pos((e - 1) as nat);
    }
}

pub proof fn lemma_pow10_adds(a: nat, b: nat)
    ensures
        pow10(a + b) == pow10(a) * pow10(b),
    decreases a,
{
    if a == 0 {
        assert(pow10(0 + b) == 1 * pow10(b));
    } else {
        lemma_pow10_adds((a - 1) as nat, b);
        assert(pow10(a + b) == 10 * pow10(((a + b) - 1) as nat));
        assert(10 * (pow10((a - 1) as nat) * pow10(b)) == (10 * pow10((a - 1) as nat)) * pow10(
            b,
        )) by (nonlinear_arith);
    }
}

/// Every u64 is below ten to the twentieth.
pub proof fn lemma_u64_below_pow10_20()
    ensures
        u64::MAX < pow10(20),
{
    reveal_with_fuel(pow10, 21);
    assert(pow10(20) == 100000000000000000000);
}

pub proof fn lemma_num_chars_len(v: int, width: nat)
    ensures
        num_chars(v, width).len() == width,
    decreases width,
{
    if width > 0 {
        lemma_num_chars_len(v / 10, (width - 1) as nat);
    }
}

pub proof fn lemma_num_chars_digits(v: int, width: nat)
    ensures
        forall|k: int|
            0 <= k < width ==> is_digit_char(#[trigger] num_chars(v, width)[k]),
    decreases width,
{
    lemma_num_chars_len(v, width);
    if width > 0 {
        lemma_num_chars_digits(v / 10, (width - 1) as nat);
        lemma_num_chars_len(v / 10, (width - 1) as nat);
    }
}

/// The digit at index `k` of a fixed-width numeral.
pub proof fn lemma_num_chars_index(v: int, width: nat, k: int)
    requires
        v >= 0,
        0 <= k < width,
    ensures
        num_chars(v, width)[k] == digit_char((v / pow10((width - 1 - k) as nat)) % 10),
    decreases width,
{
    lemma_num_chars_len(v / 10, (width - 1) as nat);
    if k == width - 1 {
        assert(pow10(0) == 1);
        assert(v / 1 == v);
    } else {
        lemma_div_pos_is_pos(v, 10);
        lemma_num_chars_index(v / 10, (width - 1) as nat, k);
        let e = (width - 2 - k) as nat;
        lemma_pow10_pos(e);
        lemma_div_denominator(v, 10, pow10(e));
        assert(pow10(e + 1) == 10 * pow10(e));
        assert((v / 10) / pow10(e) == v / (10 * pow10(e)));
    }
}

/// Fixed-width numerals of values below the width's range are injective.
pub proof fn lemma_num_chars_inj(v1: int, v2: int, width: nat)
    requires
        0 <= v1 < pow10(width),
        0 <= v2 < pow10(width),
        num_chars(v1, width) == num_chars(v2, width),
    ensures
        v1 == v2,
    decreases width,
{
    if width == 0 {
        assert(pow10(0) == 1);
    } else {
        let w1 = (width - 1) as nat;
        lemma_num_chars_len(v1 / 10, w1);
        lemma_num_chars_len(v2 / 10, w1);
        // the last characters agree, so the last digits agree
        assert(num_chars(v1, width)[width - 1] == digit_char(v1 % 10));
        assert(num_chars(v2, width)[width - 1] == digit_char(v2 % 10));
        lemma_mod_division_less_than_divisor(v1, 10);
        lemma_mod_division_less_than_divisor(v2, 10);
        assert(v1 % 10 == v2 % 10);
        // the leading characters agree as well
        assert(num_chars(v1 / 10, w1) =~= num_chars(v1, width).subrange(0, width - 1));
        assert(num_chars(v2 / 10, w1) =~= num_chars(v2, width).subrange(0, width - 1));
        // quotients stay below the shorter width's range
        assert(pow10(width) == 10 * pow10(w1));
        lemma_div_pos_is_pos(v1, 10);
        lemma_div_pos_is_pos(v2, 10);
        lemma_fundamental_div_mod(v1, 10);
        lemma_fundamental_div_mod(v2, 10);
        assert(v1 / 10 < pow10(w1)) by {
            if v1 / 10 >= pow10(w1) {
                lemma_mul_inequality(pow10(w1), v1 / 10, 10);
                assert(10 * (v1 / 10) >= 10 * pow10(w1));
            }
        }
        assert(v2 / 10 < pow10(w1)) by {
            if v2 / 10 >= pow10(w1) {
                lemma_mul_inequality(pow10(w1), v2 / 10, 10);
                assert(10 * (v2 / 10) >= 10 * pow10(w1));
            }
        }
        lemma_num_chars_inj(v1 / 10, v2 / 10, w1);
    }
}

/// The first `k` characters of a fixed-width numeral are the fixed-width
/// numeral, of width `k`, of the value shifted right by the dropped digits.
pub proof fn lemma_num_chars_prefix(v: int, width: nat, k: int)
    requires
        v >= 0,
        0 <= k <= width,
    ensures
        num_chars(v, width).subrange(0, k) =~= num_chars(
            v / pow10((width - k) as nat),
            k as nat,
        ),
{
    lemma_num_chars_len(v, width);
    lemma_num_chars_len(v / pow10((width - k) as nat), k as nat);
    lemma_pow10_pos((width - k) as nat);
    lemma_div_pos_is_pos(v, pow10((width - k) as nat));
    assert forall|j: int| 0 <= j < k implies num_chars(v, width).subrange(0, k)[j] == num_chars(
        v / pow10((width - k) as nat),
        k as nat,
    )[j] by {
        lemma_num_chars_index(v, width, j);
        lemma_num_chars_index(v / pow10((width - k) as nat), k as nat, j);
        let a = (width - k) as nat;
        let b = (k - 1 - j) as nat;
        lemma_pow10_pos(a);
        lemma_pow10_pos(b);
        lemma_div_denominator(v, pow10(a), pow10(b));
        lemma_pow10_adds(a, b);
        assert((v / pow10(a)) / pow10(b) == v / (pow10(a) * pow10(b)));
        assert(pow10(a) * pow10(b) == pow10((width - 1 - j) as nat));
    }
}

/// One decimal digit as a string.
fn digit_to_str(d: u64) -> (r: &'static str)
    requires
        d < 10,
    ensures
        r@ =~= seq![digit_char(d as int)],
{
    proof {
        reveal_strlit("0");
        reveal_strlit("1");
        reveal_strlit("2");
        reveal_strlit("3");
        reveal_strlit("4");
        reveal_strlit("5");
        reveal_strlit("6");
        reveal_strlit("7");
        reveal_strlit("8");
        reveal_strlit("9");
    }
    match d {
        0 => "0",
        1 => "1",
        2 => "2",
        3 => "3",
        4 => "4",
        5 => "5",
        6 => "6",
        7 => "7",
        8 => "8",
        _ => "9",
    }
}

/// One decimal digit of a character, if it is one.
fn digit_of_char(c: char) -> (r: Option<u64>)
    ensures
        match r {
            Some(d) => d < 10 && digit_char(d as int) == c,
            None => !is_digit_char(c),
        },
{
    match c {
        '0' => Some(0),
        '1' => Some(1),
        '2' => Some(2),
        '3' => Some(3),
        '4' => Some(4),
        '5' => Some(5),
        '6' => Some(6),
        '7' => Some(7),
        '8' => Some(8),
        '9' => Some(9),
        _ => None,
    }
}

/// Write `v` as a numeral of exactly `width` decimal digits.
pub fn num_to_fixed(v: u64, width: u8) -> (s: String)
    ensures
        s@ =~= num_chars(v as int, width as nat),
    decreases width,
{
    if width == 0 {
        String::new()
    } else {
        let mut s = num_to_fixed(v / 10, width - 1);
        let d = digit_to_str(v % 10);
        s.append(d);
        proof {
            assert(s@ =~= num_chars((v / 10) as int, (width - 1) as nat).push(digit_char(
                (v % 10) as int,
            )));
            assert((v as int) / 10 == (v / 10) as int);
            assert((v as int) % 10 == (v % 10) as int);
        }
        s
    }
}

/// Read the twenty-digit numeral at offset `from` of `s`. Returns the value
/// exactly when those twenty characters are the fixed-width numeral of some
/// `u64`; anything else — a non-digit, or a value past `u64` — is refused.
pub fn parse_fixed(s: &str, from: usize) -> (r: Option<u64>)
    requires
        from + 20 <= s@.len(),
        s@.len() <= usize::MAX,
    ensures
        match r {
            Some(v) => s@.subrange(from as int, from + 20) =~= num_chars(v as int, 20),
            None => forall|v: u64|
                s@.subrange(from as int, from + 20) != num_chars(v as int, 20),
        },
{
    let ghost window = s@.subrange(from as int, from + 20);
    let mut acc: u64 = 0;
    let mut k: usize = 0;
    proof {
        lemma_num_chars_len(0, 0);
    }
    while k < 20
        invariant
            from + 20 <= s@.len(),
            s@.len() <= usize::MAX,
            window == s@.subrange(from as int, from + 20),
            k <= 20,
            (acc as int) < pow10(k as nat),
            num_chars(acc as int, k as nat) =~= window.subrange(0, k as int),
        decreases 20 - k,
    {
        let c = s.get_char(from + k);
        proof {
            assert(window[k as int] == s@[from + k]);
        }
        match digit_of_char(c) {
            None => {
                proof {
                    assert forall|v: u64| window != num_chars(v as int, 20) by {
                        if window == num_chars(v as int, 20) {
                            lemma_num_chars_digits(v as int, 20);
                            lemma_num_chars_len(v as int, 20);
                            assert(is_digit_char(num_chars(v as int, 20)[k as int]));
                        }
                    }
                }
                return None;
            },
            Some(d) => {
                if acc > (u64::MAX - d) / 10 {
                    proof {
                        lemma_overflow_refuses(window, acc, d, k as int);
                    }
                    return None;
                }
                proof {
                    // acc * 10 + d fits in a u64
                    let m = (u64::MAX - d) as int;
                    lemma_fundamental_div_mod(m, 10);
                    lemma_mod_division_less_than_divisor(m, 10);
                    lemma_mul_inequality(acc as int, m / 10, 10);
                    assert((acc as int) * 10 <= (m / 10) * 10);
                    assert((m / 10) * 10 <= m);
                }
                let ghost old_acc = acc as int;
                acc = acc * 10 + d;
                k = k + 1;
                proof {
                    // the numeral of the new accumulator extends the window prefix
                    lemma_fundamental_div_mod(acc as int, 10);
                    lemma_mod_division_less_than_divisor(acc as int, 10);
                    assert(acc as int == 10 * old_acc + d);
                    vstd::arithmetic::div_mod::lemma_fundamental_div_mod_converse(
                        acc as int, 10, old_acc, d as int);
                    assert(acc as int / 10 == old_acc);
                    assert(acc as int % 10 == d);
                    assert(num_chars(acc as int, k as nat) =~= num_chars(old_acc, (k - 1) as nat)
                        .push(digit_char(d as int)));
                    assert(window.subrange(0, k as int) =~= window.subrange(0, k - 1).push(
                        window[k - 1],
                    ));
                    // the new accumulator stays in the width's range
                    assert(pow10(k as nat) == 10 * pow10((k - 1) as nat));
                    lemma_mul_inequality(old_acc + 1, pow10((k - 1) as nat), 10);
                    assert((old_acc + 1) * 10 <= pow10((k - 1) as nat) * 10) by {
                        lemma_mul_inequality(old_acc + 1, pow10((k - 1) as nat), 10);
                    }
                    assert((old_acc + 1) * 10 == old_acc * 10 + 10);
                }
            },
        }
    }
    proof {
        assert(window.subrange(0, 20) =~= window);
    }
    Some(acc)
}

/// No `u64` numeral can match a window whose next digit would push the
/// accumulated value past `u64::MAX`.
proof fn lemma_overflow_refuses(window: Seq<char>, acc: u64, d: u64, k: int)
    requires
        window.len() == 20,
        0 <= k < 20,
        d < 10,
        acc > (u64::MAX - d) / 10,
        (acc as int) < pow10(k as nat),
        num_chars(acc as int, k as nat) == window.subrange(0, k),
        window[k] == digit_char(d as int),
    ensures
        forall|v: u64| window != num_chars(v as int, 20),
{
    assert forall|v: u64| window != num_chars(v as int, 20) by {
        if window == num_chars(v as int, 20) {
            lemma_num_chars_len(v as int, 20);
            lemma_u64_below_pow10_20();
            // the first k digits of v's numeral are acc's numeral
            lemma_num_chars_prefix(v as int, 20, k);
            assert(num_chars(v as int, 20).subrange(0, k) =~= window.subrange(0, k));
            let p = pow10((20 - k) as nat);
            lemma_pow10_pos((20 - k) as nat);
            let q20 = v as int / p;
            lemma_div_pos_is_pos(v as int, p);
            assert(q20 < pow10(k as nat)) by {
                if q20 >= pow10(k as nat) {
                    lemma_mul_inequality(pow10(k as nat), q20, p);
                    lemma_pow10_adds(k as nat, (20 - k) as nat);
                    lemma_fundamental_div_mod(v as int, p);
                    vstd::arithmetic::div_mod::lemma_mod_pos_bound(v as int, p);
                    assert(v as int >= q20 * p);
                    assert(q20 * p >= pow10(k as nat) * p);
                }
            }
            lemma_num_chars_inj(acc as int, q20, k as nat);
            assert(acc as int == q20);
            // the digit at index k of v's numeral is d
            lemma_num_chars_index(v as int, 20, k);
            let e = (19 - k) as nat;
            let q19 = v as int / pow10(e);
            lemma_pow10_pos(e);
            lemma_div_pos_is_pos(v as int, pow10(e));
            lemma_mod_division_less_than_divisor(q19, 10);
            lemma_digit_char_inj(d as int, q19 % 10);
            assert(q19 % 10 == d);
            // v / pow10(e) / 10 == v / pow10(20 - k)
            lemma_div_denominator(v as int, pow10(e), 10);
            lemma_pow10_adds(e, 1);
            assert(pow10(e) * pow10(1) == pow10(e + 1));
            assert(pow10(1) == 10);
            assert(q19 / 10 == v as int / pow10((20 - k) as nat));
            // so q19 == 10 * acc + d, yet q19 <= v <= u64::MAX
            lemma_fundamental_div_mod(q19, 10);
            assert(q19 == 10 * (acc as int) + d);
            lemma_div_is_ordered(q19 * pow10(e), v as int, pow10(e));
            assert(q19 <= v as int) by {
                lemma_fundamental_div_mod(v as int, pow10(e));
                vstd::arithmetic::div_mod::lemma_mod_pos_bound(v as int, pow10(e));
                assert(v as int >= q19 * pow10(e));
                lemma_mul_inequality(1, pow10(e), q19);
                if q19 > v as int {
                    lemma_mul_inequality(v as int + 1, q19, pow10(e));
                    assert(q19 * pow10(e) >= (v as int + 1) * pow10(e));
                    assert((v as int + 1) * pow10(e) >= v as int + 1) by (nonlinear_arith)
                        requires pow10(e) >= 1, v as int + 1 >= 0;
                }
            }
            // but the overflow test said 10 * acc + d exceeds u64::MAX
            let m = (u64::MAX - d) as int;
            lemma_fundamental_div_mod(m, 10);
            lemma_mod_division_less_than_divisor(m, 10);
            lemma_mul_inequality(m / 10 + 1, acc as int, 10);
            assert((m / 10 + 1) * 10 == (m / 10) * 10 + 10);
            assert((acc as int) * 10 >= (m / 10) * 10 + 10);
            assert(10 * (acc as int) + d > u64::MAX);
        }
    }
}

/// Distinct digits have distinct characters.
pub proof fn lemma_digit_char_inj(a: int, b: int)
    requires
        0 <= a < 10,
        0 <= b < 10,
        digit_char(a) == digit_char(b),
    ensures
        a == b,
{
}

} // verus!
