//! Whole numbers as decimal text: the digits that are written for a number,
//! and the number that a text is read as.

use vstd::prelude::*;

verus! {

/// The byte `+`.
pub const PLUS: u8 = 0x2B;

/// The byte `-`.
pub const MINUS: u8 = 0x2D;

/// The byte `0`; the other digits follow it.
pub const ZERO: u8 = 0x30;

/// Whether `b` is one of the bytes `0` to `9`.
pub open spec fn is_digit(b: u8) -> bool {
    ZERO <= b <= ZERO + 9
}

/// Whether `text` holds digits only.
pub open spec fn all_digits(text: Seq<u8>) -> bool {
    forall|i: int| 0 <= i < text.len() ==> is_digit(#[trigger] text[i])
}

/// The number that a run of digits denotes, most significant digit first.
pub open spec fn digits_value(text: Seq<u8>) -> nat
    decreases text.len(),
{
    if text.len() == 0 {
        0
    } else {
        (digits_value(text.drop_last()) * 10 + (text.last() - ZERO)) as nat
    }
}

/// The digits of `n`, most significant first, with no leading zero but for `0` itself.
pub open spec fn digits_of(n: nat) -> Seq<u8>
    decreases n,
{
    if n < 10 {
        seq![(ZERO + n) as u8]
    } else {
        digits_of(n / 10).push((ZERO + n % 10) as u8)
    }
}

/// The text written for `v`: its digits, after a `-` where it is negative.
pub open spec fn decimal(v: int) -> Seq<u8> {
    if v < 0 {
        seq![MINUS] + digits_of((-v) as nat)
    } else {
        digits_of(v as nat)
    }
}

/// The number that `text` is read as: an optional `+`, or `-` where `signed`,
/// then at least one digit and nothing else. Leading zeros are accepted.
pub open spec fn parse_int(text: Seq<u8>, signed: bool) -> Option<int> {
    if text.len() == 0 {
        None
    } else if text[0] == PLUS {
        let digits = text.skip(1);
        if digits.len() > 0 && all_digits(digits) {
            Some(digits_value(digits) as int)
        } else {
            None
        }
    } else if text[0] == MINUS && signed {
        let digits = text.skip(1);
        if digits.len() > 0 && all_digits(digits) {
            Some(-(digits_value(digits) as int))
        } else {
            None
        }
    } else if all_digits(text) {
        Some(digits_value(text) as int)
    } else {
        None
    }
}

/// The number that `text` is read as by an integer type with the values
/// `lo..=hi`, signed where `lo` is negative; `None` where the text is no
/// number or the number is out of range.
pub open spec fn parse_in_range(text: Seq<u8>, lo: int, hi: int) -> Option<int> {
    match parse_int(text, lo < 0) {
        Some(v) => if lo <= v <= hi {
            Some(v)
        } else {
            None
        },
        None => None,
    }
}

/// A longer run of digits denotes no smaller a number than any of its prefixes.
pub proof fn lemma_digits_value_prefix(text: Seq<u8>, k: int)
    requires
        0 <= k <= text.len(),
        all_digits(text),
    ensures
        digits_value(text.take(k)) <= digits_value(text),
    decreases text.len() - k,
{
    if k == text.len() {
        assert(text.take(k) =~= text);
    } else {
        let front = text.drop_last();
        assert(front.take(k) =~= text.take(k));
        assert forall|i: int| 0 <= i < front.len() implies is_digit(#[trigger] front[i]) by {
            assert(front[i] == text[i]);
        }
        lemma_digits_value_prefix(front, k);
        assert(is_digit(text[text.len() - 1]));
    }
}

/// The digits written for a number are digits, at least one of them, and
/// denote that number.
pub proof fn lemma_digits_of(n: nat)
    ensures
        digits_of(n).len() > 0,
        all_digits(digits_of(n)),
        digits_value(digits_of(n)) == n,
    decreases n,
{
    if n < 10 {
        let d = digits_of(n);
        assert(d.drop_last() =~= Seq::<u8>::empty());
        assert(digits_value(d.drop_last()) == 0);
    } else {
        lemma_digits_of(n / 10);
        let front = digits_of(n / 10);
        let d = digits_of(n);
        assert(d.drop_last() =~= front);
        assert forall|i: int| 0 <= i < d.len() implies is_digit(#[trigger] d[i]) by {
            if i < front.len() {
                assert(d[i] == front[i]);
            }
        }
    }
}

/// Reading back the text written for a number gives that number: for every
/// `v` where `signed`, and for every `v` that is not negative otherwise.
pub proof fn lemma_decimal_round_trip(v: int, signed: bool)
    requires
        signed || v >= 0,
    ensures
        parse_int(decimal(v), signed) == Some(v),
{
    if v < 0 {
        let digits = digits_of((-v) as nat);
        lemma_digits_of((-v) as nat);
        assert(decimal(v).skip(1) =~= digits);
    } else {
        lemma_digits_of(v as nat);
        assert(is_digit(decimal(v)[0]));
    }
}

/// A text that is read as a number holds bytes below `0x80` only.
pub proof fn lemma_number_text_is_ascii(text: Seq<u8>, signed: bool)
    requires
        parse_int(text, signed) is Some,
    ensures
        forall|i: int| 0 <= i < text.len() ==> #[trigger] text[i] < 0x80,
{
    assert forall|i: int| 0 <= i < text.len() implies #[trigger] text[i] < 0x80 by {
        if text[0] == PLUS || (text[0] == MINUS && signed) {
            if i > 0 {
                assert(is_digit(text.skip(1)[i - 1]));
            }
        } else {
            assert(is_digit(text[i]));
        }
    }
}

/// The text that is written for an unsigned number.
pub fn unsigned_text(v: u64) -> (text: Vec<u8>)
    ensures
        text@ == decimal(v as int),
{
    let mut text: Vec<u8> = Vec::new();
    let mut rest: u64 = v;
    loop
        invariant_except_break
            digits_of(v as nat) == digits_of(rest as nat) + text@,
        ensures
            text@ == digits_of(v as nat),
        decreases rest,
    {
        let ghost tail = text@;
        let digit: u8 = ZERO + (rest % 10) as u8;
        text.insert(0, digit);
        if rest < 10 {
            assert(text@ =~= digits_of(rest as nat) + tail);
            break ;
        }
        assert(digits_of(rest as nat) + tail =~= digits_of((rest / 10) as nat) + text@);
        rest = rest / 10;
    }
    text
}

/// The text that is written for a signed number.
pub fn signed_text(v: i64) -> (text: Vec<u8>)
    ensures
        text@ == decimal(v as int),
{
    if v < 0 {
        let magnitude: u64 = (-(v as i128)) as u64;
        let mut text = unsigned_text(magnitude);
        text.insert(0, MINUS);
        assert(text@ =~= seq![MINUS] + digits_of(magnitude as nat));
        text
    } else {
        unsigned_text(v as u64)
    }
}

/// Reads `text` as a number of an integer type with the values `lo..=hi`.
#[verifier::loop_isolation(false)]
pub(crate) fn parse_decimal(text: &[u8], lo: i128, hi: i128) -> (r: Option<i128>)
    requires
        -0x1_0000_0000_0000_0000 <= lo <= 0 <= hi <= 0x1_0000_0000_0000_0000,
    ensures
        match r {
            Some(v) => parse_in_range(text@, lo as int, hi as int) == Some(v as int),
            None => parse_in_range(text@, lo as int, hi as int) is None,
        },
{
    let n = text.len();
    if n == 0 {
        return None;
    }
    let negative = text[0] == MINUS && lo < 0;
    let start: usize = if text[0] == PLUS || negative {
        1
    } else {
        0
    };
    if start == n {
        return None;
    }
    let ghost digits = text@.skip(start as int);
    assert(start == 0 ==> digits =~= text@);
    let bound: i128 = if negative {
        -lo
    } else {
        hi
    };
    let mut acc: i128 = 0;
    let mut i: usize = start;
    while i < n
        invariant
            start <= i <= n,
            n == text@.len(),
            digits == text@.skip(start as int),
            0 <= acc <= bound <= 0x1_0000_0000_0000_0000,
            acc == digits_value(digits.take(i - start)),
            all_digits(digits.take(i - start)),
        decreases n - i,
    {
        let b = text[i];
        let ghost seen = digits.take(i - start);
        let ghost more = digits.take(i + 1 - start);
        proof {
            assert(more.drop_last() =~= seen);
            assert(more.last() == b);
            assert(digits[i - start] == b);
        }
        if b < ZERO || b > ZERO + 9 {
            return None;
        }
        acc = acc * 10 + (b - ZERO) as i128;
        assert forall|j: int| 0 <= j < more.len() implies is_digit(#[trigger] more[j]) by {
            if j < seen.len() {
                assert(more[j] == seen[j]);
            }
        }
        if acc > bound {
            proof {
                if all_digits(digits) {
                    lemma_digits_value_prefix(digits, i + 1 - start);
                }
            }
            return None;
        }
        i += 1;
    }
    assert(digits.take(n - start) =~= digits);
    if negative {
        Some(-acc)
    } else {
        Some(acc)
    }
}

} // verus!
