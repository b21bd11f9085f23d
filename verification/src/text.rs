//! Decimal text: parsing unsigned integers from ASCII digit strings and
//! rendering them back.
//!
//! The mapping grammar and the version query both carry unsigned integers
//! as plain decimal digit runs, so both directions are specified here once:
//! `digits_val` gives the value of a digit run, `dec_str` the canonical
//! rendering of a value.

use vstd::prelude::*;
use vstd::string::StrSliceExecFns;
use vstd::string::StringExecFns;

verus! {

/// Whether a character is an ASCII decimal digit.
pub open spec fn is_digit_char(c: char) -> bool {
    48 <= c as u32 <= 57
}

/// The value of one ASCII decimal digit character.
pub open spec fn digit_val(c: char) -> int {
    c as u32 - 48
}

/// Whether a character sequence consists of decimal digits only.
pub open spec fn all_digits(s: Seq<char>) -> bool {
    forall|i: int| 0 <= i < s.len() ==> is_digit_char(#[trigger] s[i])
}

/// The value of a run of decimal digits, most significant first.
pub open spec fn digits_val(s: Seq<char>) -> int
    decreases s.len(),
{
    if s.len() == 0 {
        0
    } else {
        digits_val(s.drop_last()) * 10 + digit_val(s.last())
    }
}

/// Whether a character sequence is a well-formed decimal rendering of a
/// 32-bit value: non-empty, digits only, and within range.
pub open spec fn dec_parse_ok(s: Seq<char>) -> bool {
    s.len() > 0 && all_digits(s) && digits_val(s) < 0x1_0000_0000
}

/// The character for one decimal digit value.
pub open spec fn digit_char(n: int) -> char {
    if n == 0 {
        '0'
    } else if n == 1 {
        '1'
    } else if n == 2 {
        '2'
    } else if n == 3 {
        '3'
    } else if n == 4 {
        '4'
    } else if n == 5 {
        '5'
    } else if n == 6 {
        '6'
    } else if n == 7 {
        '7'
    } else if n == 8 {
        '8'
    } else {
        '9'
    }
}

/// The canonical decimal rendering of a value: no sign, no leading zero
/// except for the value zero itself.
pub open spec fn dec_str(n: int) -> Seq<char>
    decreases n,
{
    if n < 10 {
        seq![digit_char(n)]
    } else {
        dec_str(n / 10).push(digit_char(n % 10))
    }
}

/// A digit run has a non-negative value.
pub proof fn lemma_digits_val_nonneg(s: Seq<char>)
    requires
        all_digits(s),
    ensures
        digits_val(s) >= 0,
    decreases s.len(),
{
    if s.len() > 0 {
        assert(all_digits(s.drop_last())) by {
            assert(forall|i: int|
                0 <= i < s.drop_last().len() ==> s.drop_last()[i] == #[trigger] s[i]);
        }
        lemma_digits_val_nonneg(s.drop_last());
    }
}

/// The canonical rendering parses back to the value it was made from.
pub proof fn lemma_dec_round_trip(n: int)
    requires
        0 <= n < 0x1_0000_0000,
    ensures
        dec_parse_ok(dec_str(n)),
        digits_val(dec_str(n)) == n,
    decreases n,
{
    if n < 10 {
        let s = dec_str(n);
        assert(s =~= seq![digit_char(n)]);
        assert(s.drop_last() =~= Seq::<char>::empty());
        assert(digits_val(s.drop_last()) == 0);
        assert(s.last() == digit_char(n));
        assert(digit_val(digit_char(n)) == n);
        assert(digits_val(s) == n);
        assert(is_digit_char(s[0]));
        assert(all_digits(s));
    } else {
        lemma_dec_round_trip(n / 10);
        let s = dec_str(n);
        let p = dec_str(n / 10);
        assert(s =~= p.push(digit_char(n % 10)));
        assert(s.drop_last() =~= p);
        assert(s.last() == digit_char(n % 10));
        assert(digit_val(digit_char(n % 10)) == n % 10);
        assert(digits_val(s) == digits_val(p) * 10 + n % 10);
        assert((n / 10) * 10 + n % 10 == n);
        assert(all_digits(s)) by {
            assert(forall|i: int| 0 <= i < p.len() ==> s[i] == #[trigger] p[i]);
            assert(is_digit_char(s[s.len() - 1]));
        }
    }
}

/// Every character of a decimal rendering is a digit.
pub proof fn lemma_dec_str_digits(n: int)
    requires
        0 <= n,
    ensures
        forall|i: int| 0 <= i < dec_str(n).len() ==> '0' <= #[trigger] dec_str(n)[i] <= '9',
    decreases n,
{
    if n < 10 {
        assert(dec_str(n) =~= seq![digit_char(n)]);
        assert('0' <= digit_char(n) <= '9');
    } else {
        lemma_dec_str_digits(n / 10);
        let p = dec_str(n / 10);
        assert(dec_str(n) =~= p.push(digit_char(n % 10)));
        assert('0' <= digit_char(n % 10) <= '9');
        assert(forall|i: int| 0 <= i < p.len() ==> dec_str(n)[i] == #[trigger] p[i]);
    }
}

/// A value of at most four digits renders to at most four characters.
pub proof fn lemma_dec_str_len4(n: int)
    requires
        0 <= n <= 9999,
    ensures
        1 <= dec_str(n).len() <= 4,
{
    if n >= 10 {
        assert(dec_str(n).len() == dec_str(n / 10).len() + 1);
    }
    if n >= 100 {
        assert(dec_str(n / 10).len() == dec_str(n / 100).len() + 1);
    }
    if n >= 1000 {
        assert(dec_str(n / 100).len() == dec_str(n / 1000).len() + 1);
        assert(n / 1000 <= 9);
    }
}

/// The single-character string for one decimal digit value.
fn digit_str(d: u32) -> (r: &'static str)
    requires
        d < 10,
    ensures
        r@ =~= seq![digit_char(d as int)],
{
    proof {
        reveal_strlit("0");
        reveal_strlit("1");
        reveal_strlit("2");
        reveal_strlit("3");
        reveal_strlit("4");
        reveal_strlit("5");
        reveal_strlit("6");
        reveal_strlit("7");
        reveal_strlit("8");
        reveal_strlit("9");
    }
    match d {
        0 => "0",
        1 => "1",
        2 => "2",
        3 => "3",
        4 => "4",
        5 => "5",
        6 => "6",
        7 => "7",
        8 => "8",
        _ => "9",
    }
}

/// Renders a 32-bit value as decimal text, as the mapping grammar and the
/// sync upload header carry lengths and ports.
pub fn u32_to_decimal(n: u32) -> (r: String)
    ensures
        r@ == dec_str(n as int),
{
    if n == 0 {
        let r = String::from_str(digit_str(0));
        proof {
            assert(r@ =~= dec_str(0));
        }
        return r;
    }
    let mut digits: Vec<u32> = Vec::new();
    let ghost mut suffix: Seq<char> = Seq::empty();
    let mut m = n;
    loop
        invariant_except_break
            1 <= m,
            dec_str(n as int) == dec_str(m as int) + suffix,
        invariant
            suffix.len() == digits@.len(),
            forall|j: int| 0 <= j < digits@.len() ==> #[trigger] digits@[j] < 10,
            forall|j: int|
                0 <= j < digits@.len() ==> suffix[suffix.len() - 1 - j] == digit_char(
                    #[trigger] digits@[j] as int,
                ),
        ensures
            dec_str(n as int) == suffix,
        decreases m,
    {
        let d = m % 10;
        digits.push(d);
        proof {
            let oldsuf = suffix;
            suffix = seq![digit_char(d as int)] + suffix;
            if m < 10 {
                assert(dec_str(m as int) =~= seq![digit_char(d as int)]);
                assert(dec_str(m as int) + oldsuf =~= suffix);
            } else {
                assert(dec_str(m as int) == dec_str(m as int / 10).push(
                    digit_char(m as int % 10),
                ));
                assert(dec_str(m as int / 10).push(digit_char(d as int)) + oldsuf =~= dec_str(
                    m as int / 10,
                ) + suffix);
            }
            assert forall|j: int| 0 <= j < digits@.len() implies suffix[suffix.len() - 1 - j]
                == digit_char(#[trigger] digits@[j] as int) by {
                if j == digits@.len() - 1 {
                    assert(suffix[0] == digit_char(d as int));
                } else {
                    assert(suffix[suffix.len() - 1 - j] == oldsuf[oldsuf.len() - 1 - j]);
                }
            }
        }
        m = m / 10;
        if m == 0 {
            break;
        }
    }
    let ghost count = digits@.len();
    let mut s = String::new();
    let mut i = digits.len();
    while i > 0
        invariant
            i <= count,
            count == digits@.len(),
            suffix.len() == count,
            forall|j: int| 0 <= j < digits@.len() ==> #[trigger] digits@[j] < 10,
            forall|j: int|
                0 <= j < digits@.len() ==> suffix[suffix.len() - 1 - j] == digit_char(
                    #[trigger] digits@[j] as int,
                ),
            s@ == suffix.take(count - i),
        decreases i,
    {
        i = i - 1;
        let d = digits[i];
        s.append(digit_str(d));
        proof {
            assert(suffix[suffix.len() - 1 - i] == digit_char(digits@[i as int] as int));
            assert(s@ =~= suffix.take(count - i));
        }
    }
    proof {
        assert(suffix.take(count as int) =~= suffix);
    }
    s
}

/// Whether two strings hold the same characters.
pub fn str_eq(a: &str, b: &str) -> (r: bool)
    ensures
        r <==> a@ == b@,
{
    let la = a.unicode_len();
    let lb = b.unicode_len();
    if la != lb {
        return false;
    }
    let mut i: usize = 0;
    while i < la
        invariant
            la == a@.len(),
            la == b@.len(),
            i <= la,
            forall|j: int| 0 <= j < i ==> a@[j] == b@[j],
        decreases la - i,
    {
        if a.get_char(i) != b.get_char(i) {
            return false;
        }
        i = i + 1;
    }
    proof {
        assert(a@ =~= b@);
    }
    true
}

/// Parses a string as an unsigned 32-bit decimal integer: succeeds exactly
/// on non-empty all-digit strings whose value fits, and yields that value.
pub fn parse_decimal_u32(s: &str) -> (r: Option<u32>)
    ensures
        match r {
            Some(n) => dec_parse_ok(s@) && n == digits_val(s@),
            None => !dec_parse_ok(s@),
        },
{
    let len = s.unicode_len();
    if len == 0 {
        return None;
    }
    let mut acc: u32 = 0;
    let mut ok = true;
    let mut i: usize = 0;
    while i < len
        invariant
            len == s@.len(),
            i <= len,
            all_digits(s@.take(i as int)),
            ok ==> acc == digits_val(s@.take(i as int)),
            !ok ==> digits_val(s@.take(i as int)) >= 0x1_0000_0000,
        decreases len - i,
    {
        let c = s.get_char(i);
        let v = c as u32;
        if v < 48 || v > 57 {
            assert(!is_digit_char(s@[i as int]));
            return None;
        }
        let d = v - 48;
        proof {
            assert(s@.take(i + 1).drop_last() =~= s@.take(i as int));
            assert(s@.take(i + 1).last() == s@[i as int]);
            assert(digits_val(s@.take(i + 1)) == digits_val(s@.take(i as int)) * 10 + d);
            assert(forall|j: int|
                0 <= j < i + 1 ==> is_digit_char(#[trigger] s@.take(i + 1)[j]));
        }
        if ok {
            let wide: u64 = acc as u64 * 10 + d as u64;
            if wide > 0xFFFF_FFFFu64 {
                ok = false;
            } else {
                acc = wide as u32;
            }
        } else {
            proof {
                lemma_digits_val_nonneg(s@.take(i as int));
            }
        }
        i = i + 1;
    }
    proof {
        assert(s@.take(len as int) =~= s@);
    }
    if ok {
        Some(acc)
    } else {
        None
    }
}

} // verus!
