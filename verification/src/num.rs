//! Verified decimal parsing and formatting for patient identifiers: folder
//! names are zero-padded decimal strings, and the high-water mark is the
//! numerically largest one persisted so far.
use vstd::prelude::*;
use vstd::string::*;

use crate::text::{lex_lt, lex_lt_at};

verus! {

/// Whether `c` is a decimal digit.
pub open spec fn is_dec_digit(c: char) -> bool {
    48 <= (c as u32) <= 57
}

/// The numeric value of a digit character.
pub open spec fn digit_val(c: char) -> int {
    (c as u32) - 48
}

/// A non-empty, all-digit character sequence.
pub open spec fn is_numeric(s: Seq<char>) -> bool {
    s.len() > 0 && forall|i: int| 0 <= i < s.len() ==> is_dec_digit(s[i])
}

/// The numeric value of a digit sequence, most significant digit first.
pub open spec fn dec_val(s: Seq<char>) -> int
    decreases s.len(),
{
    if s.len() == 0 {
        0
    } else {
        dec_val(s.drop_last()) * 10 + digit_val(s.last())
    }
}

pub proof fn lemma_dec_val_nonneg(s: Seq<char>)
    requires
        forall|i: int| 0 <= i < s.len() ==> is_dec_digit(s[i]),
    ensures
        dec_val(s) >= 0,
    decreases s.len(),
{
    if s.len() > 0 {
        lemma_dec_val_nonneg(s.drop_last());
    }
}

/// Longer all-digit prefixes never denote smaller numbers.
proof fn lemma_dec_val_prefix_monotone(s: Seq<char>, i: int, j: int)
    requires
        0 <= i <= j <= s.len(),
        forall|k: int| 0 <= k < s.len() ==> is_dec_digit(s[k]),
    ensures
        dec_val(s.subrange(0, i)) <= dec_val(s.subrange(0, j)),
    decreases j - i,
{
    if i < j {
        lemma_dec_val_prefix_monotone(s, i, j - 1);
        let p = s.subrange(0, j - 1);
        assert(s.subrange(0, j).drop_last() =~= p);
        assert(forall|k: int| 0 <= k < p.len() ==> is_dec_digit(p[k]));
        lemma_dec_val_nonneg(p);
    }
}

/// Parses a non-empty all-digit string into its numeric value; anything else,
/// and any value beyond `u32::MAX`, is rejected.
pub fn parse_patient_nb(s: &str) -> (r: Option<u32>)
    ensures
        r is Some <==> is_numeric(s@) && dec_val(s@) <= u32::MAX,
        r matches Some(v) ==> v == dec_val(s@),
{
    let n = s.unicode_len();
    if n == 0 {
        return None;
    }
    let mut v: u64 = 0;
    let mut i: usize = 0;
    while i < n
        invariant
            n == s@.len(),
            0 < n,
            i <= n,
            v <= u32::MAX,
            v == dec_val(s@.subrange(0, i as int)),
            forall|k: int| 0 <= k < i ==> is_dec_digit(s@[k]),
        decreases n - i,
    {
        let c = s.get_char(i);
        let cu = c as u32;
        if cu < 48 || cu > 57 {
            assert(!is_numeric(s@));
            return None;
        }
        let d = (cu - 48) as u64;
        v = v * 10 + d;
        proof {
            let p = s@.subrange(0, i + 1);
            assert(p.drop_last() =~= s@.subrange(0, i as int));
            assert(p.last() == s@[i as int]);
        }
        i = i + 1;
        if v > u32::MAX as u64 {
            proof {
                if is_numeric(s@) {
                    lemma_dec_val_prefix_monotone(s@, i as int, n as int);
                    assert(s@.subrange(0, n as int) =~= s@);
                }
            }
            return None;
        }
    }
    proof {
        assert(s@.subrange(0, n as int) =~= s@);
    }
    Some(v as u32)
}

/// The digit character for a value below ten.
pub open spec fn digit_char(d: int) -> char {
    if d == 0 {
        '0'
    } else if d == 1 {
        '1'
    } else if d == 2 {
        '2'
    } else if d == 3 {
        '3'
    } else if d == 4 {
        '4'
    } else if d == 5 {
        '5'
    } else if d == 6 {
        '6'
    } else if d == 7 {
        '7'
    } else if d == 8 {
        '8'
    } else {
        '9'
    }
}

/// The decimal rendering of a number, most significant digit first, with no
/// leading zeros (a lone zero for zero).
pub open spec fn dec_seq(n: nat) -> Seq<char>
    decreases n,
{
    if n < 10 {
        seq![digit_char(n as int)]
    } else {
        dec_seq(n / 10).push(digit_char((n % 10) as int))
    }
}

fn digit_str(d: u32) -> (r: &'static str)
    requires
        d < 10,
    ensures
        r@ =~= seq![digit_char(d as int)],
{
    proof {
        reveal_strlit("0");
        reveal_strlit("1");
        reveal_strlit("2");
        reveal_strlit("3");
        reveal_strlit("4");
        reveal_strlit("5");
        reveal_strlit("6");
        reveal_strlit("7");
        reveal_strlit("8");
        reveal_strlit("9");
    }
    if d == 0 {
        "0"
    } else if d == 1 {
        "1"
    } else if d == 2 {
        "2"
    } else if d == 3 {
        "3"
    } else if d == 4 {
        "4"
    } else if d == 5 {
        "5"
    } else if d == 6 {
        "6"
    } else if d == 7 {
        "7"
    } else if d == 8 {
        "8"
    } else {
        "9"
    }
}

/// Renders a number in decimal.
pub fn u32_to_dec(n: u32) -> (r: String)
    ensures
        r@ == dec_seq(n as nat),
    decreases n,
{
    if n < 10 {
        String::from_str(digit_str(n))
    } else {
        let mut s = u32_to_dec(n / 10);
        s.append(digit_str(n % 10));
        proof {
            assert(dec_seq((n / 10) as nat).push(digit_char((n % 10) as int)) =~= dec_seq(
                (n / 10) as nat,
            ) + seq![digit_char((n % 10) as int)]);
        }
        s
    }
}

/// The decimal rendering of a possibly negative number.
pub open spec fn spec_i32_dec(n: int) -> Seq<char> {
    if n < 0 {
        seq!['-'] + dec_seq((-n) as nat)
    } else {
        dec_seq(n as nat)
    }
}

/// Renders a signed number in decimal.
pub fn i32_to_dec(n: i32) -> (r: String)
    ensures
        r@ == spec_i32_dec(n as int),
{
    if n >= 0 {
        u32_to_dec(n as u32)
    } else {
        let a = (-(n as i64)) as u32;
        let mut s = String::from_str("-");
        proof {
            reveal_strlit("-");
            assert(s@ =~= seq!['-']);
        }
        let d = u32_to_dec(a);
        s.append(d.as_str());
        s
    }
}

/// The decimal rendering of a number, zero-padded on the left to at least
/// three digits, as patient folder names are written.
pub open spec fn spec_pad3(n: nat) -> Seq<char> {
    if n < 10 {
        seq!['0', '0'] + dec_seq(n)
    } else if n < 100 {
        seq!['0'] + dec_seq(n)
    } else {
        dec_seq(n)
    }
}

proof fn lemma_dec_seq_digits(n: nat)
    ensures
        forall|i: int| 0 <= i < dec_seq(n).len() ==> is_dec_digit(dec_seq(n)[i]),
    decreases n,
{
    if n >= 10 {
        lemma_dec_seq_digits(n / 10);
        assert forall|i: int| 0 <= i < dec_seq(n).len() implies is_dec_digit(dec_seq(n)[i]) by {
            if i < dec_seq(n / 10).len() {
                assert(dec_seq(n)[i] == dec_seq(n / 10)[i]);
            }
        }
    }
}

proof fn lemma_char_cast_injective(x: char, y: char)
    requires
        x as u32 == y as u32,
    ensures
        x == y,
{
}

proof fn lemma_digit_char_val(d: int)
    requires
        0 <= d <= 9,
    ensures
        is_dec_digit(digit_char(d)),
        digit_val(digit_char(d)) == d,
{
}

proof fn lemma_dec_val_dec_seq(n: nat)
    ensures
        dec_val(dec_seq(n)) == n,
    decreases n,
{
    if n < 10 {
        lemma_digit_char_val(n as int);
        assert(dec_val(Seq::<char>::empty()) == 0);
        assert(dec_seq(n).drop_last() =~= Seq::<char>::empty());
        assert(dec_seq(n).last() == digit_char(n as int));
    } else {
        lemma_dec_val_dec_seq(n / 10);
        lemma_digit_char_val((n % 10) as int);
        assert(dec_seq(n).drop_last() =~= dec_seq(n / 10));
        assert(dec_seq(n).last() == digit_char((n % 10) as int));
    }
}

proof fn lemma_dec_val_zero_prefixed(s: Seq<char>)
    ensures
        dec_val(seq!['0'] + s) == dec_val(s),
    decreases s.len(),
{
    lemma_digit_char_val(0);
    if s.len() == 0 {
        assert(dec_val(Seq::<char>::empty()) == 0);
        assert(seq!['0'] + s =~= seq!['0']);
        assert((seq!['0']).drop_last() =~= Seq::<char>::empty());
        assert((seq!['0']).last() == '0');
    } else {
        lemma_dec_val_zero_prefixed(s.drop_last());
        assert((seq!['0'] + s).drop_last() =~= seq!['0'] + s.drop_last());
        assert((seq!['0'] + s).last() == s.last());
    }
}

/// Zero-padding is faithful: the padded rendering of a number is a numeral
/// denoting that number and nothing else.
pub proof fn lemma_pad3_round_trip(n: nat)
    ensures
        is_numeric(spec_pad3(n)),
        dec_val(spec_pad3(n)) == n,
{
    lemma_dec_seq_digits(n);
    lemma_dec_val_dec_seq(n);
    if n < 10 {
        assert(seq!['0', '0'] + dec_seq(n) =~= seq!['0'] + (seq!['0'] + dec_seq(n)));
        lemma_dec_val_zero_prefixed(dec_seq(n));
        lemma_dec_val_zero_prefixed(seq!['0'] + dec_seq(n));
        assert forall|i: int| 0 <= i < spec_pad3(n).len() implies is_dec_digit(
            spec_pad3(n)[i],
        ) by {
            if i >= 2 {
                assert(spec_pad3(n)[i] == dec_seq(n)[i - 2]);
            }
        }
    } else if n < 100 {
        lemma_dec_val_zero_prefixed(dec_seq(n));
        assert forall|i: int| 0 <= i < spec_pad3(n).len() implies is_dec_digit(
            spec_pad3(n)[i],
        ) by {
            if i >= 1 {
                assert(spec_pad3(n)[i] == dec_seq(n)[i - 1]);
            }
        }
    }
}

/// Ten to the `k`-th power.
pub open spec fn pow10(k: nat) -> int
    decreases k,
{
    if k == 0 {
        1
    } else {
        10 * pow10((k - 1) as nat)
    }
}

proof fn lemma_pow10_pos(k: nat)
    ensures
        pow10(k) >= 1,
    decreases k,
{
    if k > 0 {
        lemma_pow10_pos((k - 1) as nat);
    }
}

/// A numeral of `k` digits denotes less than ten to the `k`-th.
proof fn lemma_dec_val_bound(s: Seq<char>)
    requires
        forall|i: int| 0 <= i < s.len() ==> is_dec_digit(s[i]),
    ensures
        0 <= dec_val(s) < pow10(s.len()),
    decreases s.len(),
{
    if s.len() > 0 {
        lemma_dec_val_bound(s.drop_last());
    }
}

/// Digit sequences denote positionally: a concatenation denotes the left part,
/// shifted past the right part's width, plus the right part.
proof fn lemma_dec_val_concat(x: Seq<char>, s: Seq<char>)
    ensures
        dec_val(x + s) == dec_val(x) * pow10(s.len()) + dec_val(s),
    decreases s.len(),
{
    if s.len() == 0 {
        assert(x + s =~= x);
    } else {
        lemma_dec_val_concat(x, s.drop_last());
        assert((x + s).drop_last() =~= x + s.drop_last());
        assert((x + s).last() == s.last());
        let p = pow10((s.len() - 1) as nat);
        assert((dec_val(x) * p + dec_val(s.drop_last())) * 10 == dec_val(x) * (10 * p) + dec_val(
            s.drop_last(),
        ) * 10) by (nonlinear_arith);
    }
}

/// Two equal-width numerals that agree before position `i` and differ there
/// are ordered by that digit.
proof fn lemma_first_difference_orders(a: Seq<char>, b: Seq<char>, i: int)
    requires
        a.len() == b.len(),
        forall|k: int| 0 <= k < a.len() ==> is_dec_digit(a[k]),
        forall|k: int| 0 <= k < b.len() ==> is_dec_digit(b[k]),
        0 <= i < a.len(),
        a.subrange(0, i) == b.subrange(0, i),
        (a[i] as u32) < (b[i] as u32),
    ensures
        dec_val(a) < dec_val(b),
{
    let l = a.len() as int;
    let ahead = a.subrange(0, i + 1);
    let atail = a.subrange(i + 1, l);
    let bhead = b.subrange(0, i + 1);
    let btail = b.subrange(i + 1, l);
    assert(a =~= ahead + atail);
    assert(b =~= bhead + btail);
    lemma_dec_val_concat(ahead, atail);
    lemma_dec_val_concat(bhead, btail);
    assert(ahead.drop_last() =~= a.subrange(0, i));
    assert(bhead.drop_last() =~= b.subrange(0, i));
    assert(ahead.last() == a[i] && bhead.last() == b[i]);
    assert(dec_val(ahead) + 1 <= dec_val(bhead));
    assert(forall|k: int| 0 <= k < atail.len() ==> is_dec_digit(atail[k]));
    assert(forall|k: int| 0 <= k < btail.len() ==> is_dec_digit(btail[k]));
    lemma_dec_val_bound(atail);
    lemma_dec_val_bound(btail);
    let p = pow10(atail.len());
    lemma_pow10_pos(atail.len());
    assert(dec_val(ahead) * p + dec_val(atail) < dec_val(bhead) * p + dec_val(btail))
        by (nonlinear_arith)
        requires
            dec_val(ahead) + 1 <= dec_val(bhead),
            dec_val(atail) < p,
            dec_val(btail) >= 0,
            p >= 1,
    ;
}

/// Two distinct equal-width sequences disagree somewhere first.
proof fn lemma_first_difference_exists(a: Seq<char>, b: Seq<char>)
    requires
        a.len() == b.len(),
        a != b,
    ensures
        exists|i: int|
            0 <= i < a.len() && a.subrange(0, i) == b.subrange(0, i) && a[i] != b[i],
    decreases a.len(),
{
    if a.len() == 0 {
        assert(a =~= b);
    } else if a[0] != b[0] {
        assert(a.subrange(0, 0) =~= b.subrange(0, 0));
        assert(a.subrange(0, 0) == b.subrange(0, 0) && a[0] != b[0]);
    } else {
        let at = a.subrange(1, a.len() as int);
        let bt = b.subrange(1, b.len() as int);
        assert(at != bt) by {
            if at == bt {
                assert forall|k: int| 0 <= k < a.len() implies a[k] == b[k] by {
                    if k > 0 {
                        assert(at[k - 1] == bt[k - 1]);
                    }
                }
                assert(a =~= b);
            }
        }
        lemma_first_difference_exists(at, bt);
        let j = choose|j: int|
            0 <= j < at.len() && at.subrange(0, j) == bt.subrange(0, j) && at[j] != bt[j];
        assert(a.subrange(0, j + 1) =~= b.subrange(0, j + 1)) by {
            assert forall|k: int| 0 <= k < j + 1 implies #[trigger] a.subrange(0, j + 1)[k]
                == b.subrange(0, j + 1)[k] by {
                if k > 0 {
                    assert(at.subrange(0, j)[k - 1] == at[k - 1]);
                    assert(bt.subrange(0, j)[k - 1] == bt[k - 1]);
                }
            }
        }
        assert(a[j + 1] == at[j] && b[j + 1] == bt[j]);
    }
}

/// Why the scanner may compare zero-padded folder names as strings: on
/// equal-width numerals, the lexicographic order and the numeric order
/// coincide.
pub proof fn lemma_lex_order_is_numeric_order(a: Seq<char>, b: Seq<char>)
    requires
        a.len() == b.len(),
        forall|k: int| 0 <= k < a.len() ==> is_dec_digit(a[k]),
        forall|k: int| 0 <= k < b.len() ==> is_dec_digit(b[k]),
    ensures
        lex_lt(a, b) <==> dec_val(a) < dec_val(b),
{
    if lex_lt(a, b) {
        let i = choose|i: int| lex_lt_at(a, b, i);
        lemma_first_difference_orders(a, b, i);
    }
    if dec_val(a) < dec_val(b) {
        assert(a != b);
        lemma_first_difference_exists(a, b);
        let i = choose|i: int|
            0 <= i < a.len() && a.subrange(0, i) == b.subrange(0, i) && a[i] != b[i];
        assert((a[i] as u32) != (b[i] as u32)) by {
            if (a[i] as u32) == (b[i] as u32) {
                lemma_char_cast_injective(a[i], b[i]);
            }
        }
        if (a[i] as u32) < (b[i] as u32) {
            assert(lex_lt_at(a, b, i));
        } else {
            lemma_first_difference_orders(b, a, i);
        }
    }
}

/// Formats a patient number as its zero-padded folder name.
pub fn format_patient_nb(n: u32) -> (r: String)
    ensures
        r@ == spec_pad3(n as nat),
{
    proof {
        reveal_strlit("00");
        reveal_strlit("0");
    }
    if n < 10 {
        let mut s = String::from_str("00");
        assert(s@ =~= seq!['0', '0']);
        let d = u32_to_dec(n);
        s.append(d.as_str());
        s
    } else if n < 100 {
        let mut s = String::from_str("0");
        assert(s@ =~= seq!['0']);
        let d = u32_to_dec(n);
        s.append(d.as_str());
        s
    } else {
        u32_to_dec(n)
    }
}

} // verus!
