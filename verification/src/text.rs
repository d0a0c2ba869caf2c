//! Text utilities shared by the lexer, the literal converter and the code
//! generator: decimal digit strings, their numeric values, and rendering
//! integers back to decimal text.

use vstd::prelude::*;

verus! {

/// An ASCII decimal digit.
pub open spec fn is_digit(c: char) -> bool {
    0x30 <= c as u32 <= 0x39
}

/// Numeric value of a digit character.
pub open spec fn digit_val(c: char) -> int {
    c as u32 - 0x30
}

/// All characters of `s` are decimal digits.
pub open spec fn all_digits(s: Seq<char>) -> bool {
    forall|k: int| 0 <= k < s.len() ==> is_digit(#[trigger] s[k])
}

/// Value of a digit string read in base 10, most significant digit first.
pub open spec fn digits_val(s: Seq<char>) -> int
    decreases s.len(),
{
    if s.len() == 0 {
        0
    } else {
        digits_val(s.drop_last()) * 10 + digit_val(s.last())
    }
}

pub proof fn lemma_digits_val_nonneg(s: Seq<char>)
    requires
        all_digits(s),
    ensures
        digits_val(s) >= 0,
    decreases s.len(),
{
    if s.len() > 0 {
        assert(all_digits(s.drop_last()));
        lemma_digits_val_nonneg(s.drop_last());
    }
}

/// Extending a digit string to the right never shrinks its value.
pub proof fn lemma_digits_val_take_le(s: Seq<char>, i: int)
    requires
        all_digits(s),
        0 <= i <= s.len(),
    ensures
        digits_val(s.take(i)) <= digits_val(s),
    decreases s.len() - i,
{
    if i < s.len() {
        let t = s.take(i + 1);
        assert(t.drop_last() =~= s.take(i));
        assert(all_digits(s.take(i + 1)));
        lemma_digits_val_nonneg(s.take(i));
        lemma_digits_val_take_le(s, i + 1);
    } else {
        assert(s.take(i) =~= s);
    }
}

/// Parses a string of decimal digits as an `i32`.
///
/// Returns the value exactly when the text is nonempty, consists of digits
/// only, and its value fits in an `i32`.
pub fn parse_decimal_i32(raw: &str) -> (r: Option<i32>)
    ensures
        r is Some <==> (raw@.len() > 0 && all_digits(raw@) && digits_val(raw@) <= i32::MAX),
        r is Some ==> r->0 as int == digits_val(raw@),
{
    let len = raw.unicode_len();
    if len == 0 {
        return None;
    }
    let mut val: u64 = 0;
    let mut i: usize = 0;
    while i < len
        invariant
            0 < len == raw@.len(),
            0 <= i <= len,
            all_digits(raw@.take(i as int)),
            val == digits_val(raw@.take(i as int)),
            val <= i32::MAX,
        decreases len - i,
    {
        let c = raw.get_char(i);
        let cu = c as u32;
        if !(0x30 <= cu && cu <= 0x39) {
            assert(!is_digit(raw@[i as int]));
            assert(!all_digits(raw@));
            return None;
        }
        let d = (cu - 0x30) as u64;
        proof {
            assert(raw@.take(i as int + 1).drop_last() =~= raw@.take(i as int));
            assert(raw@.take(i as int + 1).last() == raw@[i as int]);
        }
        val = val * 10 + d;
        i = i + 1;
        if val > i32::MAX as u64 {
            proof {
                if all_digits(raw@) {
                    lemma_digits_val_take_le(raw@, i as int);
                }
            }
            return None;
        }
    }
    proof {
        assert(raw@.take(len as int) =~= raw@);
    }
    Some(val as i32)
}

/// The digit character for a value between 0 and 9.
pub open spec fn digit_char(d: int) -> char {
    if d == 0 {
        '0'
    } else if d == 1 {
        '1'
    } else if d == 2 {
        '2'
    } else if d == 3 {
        '3'
    } else if d == 4 {
        '4'
    } else if d == 5 {
        '5'
    } else if d == 6 {
        '6'
    } else if d == 7 {
        '7'
    } else if d == 8 {
        '8'
    } else {
        '9'
    }
}

/// Decimal representation of a nonnegative number, most significant digit
/// first, with no leading zeros (except for the number 0 itself).
pub open spec fn dec_digits(x: nat) -> Seq<char>
    decreases x,
{
    if x < 10 {
        seq![digit_char(x as int)]
    } else {
        dec_digits(x / 10) + seq![digit_char((x % 10) as int)]
    }
}

/// Rendering round trip: the decimal text of a nonnegative number is made of
/// digits and reads back as that very number.
pub proof fn lemma_dec_digits_val(x: nat)
    ensures
        dec_digits(x).len() >= 1,
        all_digits(dec_digits(x)),
        digits_val(dec_digits(x)) == x,
    decreases x,
{
    assert forall|m: int| 0 <= m <= 9 implies digit_val(#[trigger] digit_char(m)) == m
        && is_digit(digit_char(m)) by {
        assert('0' as u32 == 0x30 && '1' as u32 == 0x31 && '2' as u32 == 0x32 && '3' as u32 == 0x33
            && '4' as u32 == 0x34 && '5' as u32 == 0x35 && '6' as u32 == 0x36 && '7' as u32 == 0x37
            && '8' as u32 == 0x38 && '9' as u32 == 0x39);
    }
    if x < 10 {
        let d = dec_digits(x);
        assert(d.drop_last() =~= Seq::<char>::empty());
        assert(d.last() == digit_char(x as int));
        assert(digits_val(Seq::<char>::empty()) == 0);
        assert(digits_val(d) == digits_val(d.drop_last()) * 10 + digit_val(d.last()));
    } else {
        lemma_dec_digits_val(x / 10);
        let a = dec_digits(x / 10);
        let c = digit_char((x % 10) as int);
        let d = dec_digits(x);
        assert(d =~= a.push(c));
        assert(d.drop_last() =~= a);
        assert(d.last() == c);
        vstd::arithmetic::div_mod::lemma_fundamental_div_mod(x as int, 10);
        assert(digits_val(d) == digits_val(a) * 10 + digit_val(c));
        assert(all_digits(d)) by {
            assert(forall|k: int| 0 <= k < a.len() ==> d[k] == a[k]);
        }
    }
}

/// Decimal representation of an `i32`, with a leading minus sign when
/// negative.
pub open spec fn spec_i32_dec(n: i32) -> Seq<char> {
    if n >= 0 {
        dec_digits(n as nat)
    } else {
        seq!['-'] + dec_digits((-(n as int)) as nat)
    }
}

fn digit_char_of(d: u64) -> (c: char)
    requires
        d <= 9,
    ensures
        c == digit_char(d as int),
{
    if d == 0 {
        '0'
    } else if d == 1 {
        '1'
    } else if d == 2 {
        '2'
    } else if d == 3 {
        '3'
    } else if d == 4 {
        '4'
    } else if d == 5 {
        '5'
    } else if d == 6 {
        '6'
    } else if d == 7 {
        '7'
    } else if d == 8 {
        '8'
    } else {
        '9'
    }
}

fn u64_dec_chars(x: u64) -> (v: Vec<char>)
    ensures
        v@ == dec_digits(x as nat),
    decreases x,
{
    if x < 10 {
        let mut v: Vec<char> = Vec::new();
        v.push(digit_char_of(x));
        proof {
            assert(v@ =~= dec_digits(x as nat));
        }
        v
    } else {
        let mut v = u64_dec_chars(x / 10);
        v.push(digit_char_of(x % 10));
        proof {
            assert(v@ =~= dec_digits(x as nat));
        }
        v
    }
}

/// Renders an `i32` in decimal.
pub fn i32_dec_string(n: i32) -> (s: String)
    ensures
        s@ == spec_i32_dec(n),
{
    if n >= 0 {
        let v = u64_dec_chars(n as u64);
        chars_to_string(&v)
    } else {
        let mag = (-(n as i64)) as u64;
        let v = u64_dec_chars(mag);
        let digits = chars_to_string(&v);
        let mut s = "-".to_owned();
        s.append(digits.as_str());
        proof {
            reveal_strlit("-");
            assert(s@ =~= spec_i32_dec(n));
        }
        s
    }
}

/// Relies on `String: FromIterator<char>`: collecting characters yields the
/// string of exactly those characters, in order.
#[verifier::external_body]
pub(crate) fn chars_to_string(v: &Vec<char>) -> (s: String)
    ensures
        s@ == v@,
{
    v.iter().collect()
}

} // verus!
