use vstd::prelude::*;

verus! {

/// Whether a character is an ASCII decimal digit.
pub open spec fn is_digit(c: char) -> bool {
    '0' <= c && c <= '9'
}

/// The number that a string of decimal digits spells.
pub open spec fn digits_value(s: Seq<char>) -> int
    decreases s.len(),
{
    if s.len() == 0 {
        0
    } else {
        digits_value(s.drop_last()) * 10 + (s.last() as int - '0' as int)
    }
}

/// Whether the text starts with a minus sign that a signed type reads.
pub open spec fn is_negative(s: Seq<char>, signed: bool) -> bool {
    signed && s.len() > 0 && s[0] == '-'
}

/// The text without the sign that is read, if any.
pub open spec fn unsigned_part(s: Seq<char>, signed: bool) -> Seq<char> {
    if s.len() > 0 && (s[0] == '+' || is_negative(s, signed)) { s.drop_first() } else { s }
}

/// The integer a setting's text spells, as integers are read from text: an optional
/// `+` (or, for a signed type, `-`), then one or more decimal digits and nothing else.
pub open spec fn decimal_integer(s: Seq<char>, signed: bool) -> Option<int> {
    let negative = is_negative(s, signed);
    let body = unsigned_part(s, signed);
    if body.len() > 0 && forall|i: int| 0 <= i < body.len() ==> #[trigger] is_digit(body[i]) {
        Some(if negative { -digits_value(body) } else { digits_value(body) })
    } else {
        None
    }
}

/// The integer a setting's text spells when it lies from `lo` to `hi`.
pub open spec fn bounded_integer(s: Seq<char>, signed: bool, lo: int, hi: int) -> Option<int> {
    match decimal_integer(s, signed) {
        Some(v) => if lo <= v <= hi { Some(v) } else { None },
        None => None,
    }
}

proof fn lemma_digits_grow(s: Seq<char>, n: int)
    requires
        0 <= n <= s.len(),
        forall|i: int| 0 <= i < s.len() ==> #[trigger] is_digit(s[i]),
    ensures
        digits_value(s) >= digits_value(s.take(n)),
        digits_value(s.take(n)) >= 0,
    decreases s.len(),
{
    if s.len() > 0 {
        let rest = s.drop_last();
        assert forall|i: int| 0 <= i < rest.len() implies #[trigger] is_digit(rest[i]) by {
            assert(rest[i] == s[i]);
        }
        if n == s.len() {
            assert(s.take(n) =~= s);
            lemma_digits_grow(rest, rest.len() as int);
            assert(rest.take(rest.len() as int) =~= rest);
        } else {
            lemma_digits_grow(rest, n);
            assert(rest.take(n) =~= s.take(n));
            assert(rest.take(rest.len() as int) =~= rest);
            lemma_digits_grow(rest, rest.len() as int);
        }
        assert(is_digit(s[s.len() - 1]));
    } else {
        assert(s.take(n) =~= s);
    }
}

/// Reads an integer from `Text` (see `decimal_integer`), if it spells one from
/// `Minimum` to `Maximum`.
fn ParseDecimal(Text: &str, Signed: bool, Minimum: i128, Maximum: i128) -> (r: Option<i128>)
    requires
        -0x1_0000_0000_0000_0000 <= Minimum <= 0 <= Maximum <= 0x1_0000_0000_0000_0000,
    ensures
        match bounded_integer(Text@, Signed, Minimum as int, Maximum as int) {
            Some(v) => r == Some(v as i128),
            None => r is None,
        },
{
    let s = Ghost(Text@);
    let Length: usize = Text.unicode_len();
    if Length == 0 {
        return None;
    }
    let First: char = Text.get_char(0);
    let Negative: bool = Signed && First == '-';
    let Start: usize = if First == '+' || Negative { 1 } else { 0 };
    let ghost body = unsigned_part(s@, Signed);
    assert(body =~= s@.subrange(Start as int, s@.len() as int));
    if Start == Length {
        return None;
    }
    let Limit: i128 = if Negative { -Minimum } else { Maximum };
    let mut Magnitude: i128 = 0;
    let mut k: usize = Start;
    while k < Length
        invariant
            Length == s@.len(),
            s == Ghost(Text@),
            Start <= k <= Length,
            Start < Length,
            body =~= s@.subrange(Start as int, s@.len() as int),
            body == unsigned_part(s@, Signed),
            Negative == is_negative(s@, Signed),
            Limit == (if Negative { -Minimum } else { Maximum as int }),
            0 <= Limit <= 0x1_0000_0000_0000_0000,
            forall|i: int| Start <= i < k ==> #[trigger] is_digit(s@[i]),
            Magnitude == digits_value(body.take(k - Start)),
            0 <= Magnitude <= Limit,
        decreases Length - k,
    {
        let c: char = Text.get_char(k);
        assert(body[k - Start] == s@[k as int]);
        if !('0' <= c && c <= '9') {
            proof {
                assert(!is_digit(body[k - Start]));
                assert(!(forall|i: int| 0 <= i < body.len() ==> #[trigger] is_digit(body[i])));
                assert(decimal_integer(s@, Signed) is None);
            }
            return None;
        }
        let Digit: i128 = (c as u32 - '0' as u32) as i128;
        proof {
            assert(body.take(k - Start + 1).drop_last() =~= body.take(k - Start));
            assert(body.take(k - Start + 1).last() == c);
        }
        assert(Digit == c as int - '0' as int);
        Magnitude = Magnitude * 10 + Digit;
        k += 1;
        assert(Magnitude == digits_value(body.take(k - Start)));
        if Magnitude > Limit {
            proof {
                if forall|i: int| 0 <= i < body.len() ==> #[trigger] is_digit(body[i]) {
                    lemma_digits_grow(body, k - Start);
                    assert(digits_value(body) > Limit);
                    assert(bounded_integer(s@, Signed, Minimum as int, Maximum as int) is None);
                }
            }
            return None;
        }
    }
    proof {
        assert(body.take(body.len() as int) =~= body);
        assert forall|i: int| 0 <= i < body.len() implies #[trigger] is_digit(body[i]) by {
            assert(body[i] == s@[Start + i]);
        }
    }
    if Negative { Some(-Magnitude) } else { Some(Magnitude) }
}

/// Reads a `u32` setting: digits with an optional `+`, within the type's range.
pub fn ParseU32(Text: &str) -> (r: Option<u32>)
    ensures
        match bounded_integer(Text@, false, 0, u32::MAX as int) {
            Some(v) => r == Some(v as u32),
            None => r is None,
        },
{
    match ParseDecimal(Text, false, 0, u32::MAX as i128) {
        Some(v) => Some(v as u32),
        None => None,
    }
}

/// Reads a `u64` setting: digits with an optional `+`, within the type's range.
pub fn ParseU64(Text: &str) -> (r: Option<u64>)
    ensures
        match bounded_integer(Text@, false, 0, u64::MAX as int) {
            Some(v) => r == Some(v as u64),
            None => r is None,
        },
{
    match ParseDecimal(Text, false, 0, u64::MAX as i128) {
        Some(v) => Some(v as u64),
        None => None,
    }
}

/// Reads an `i64` setting: digits with an optional `+` or `-`, within the type's range.
pub fn ParseI64(Text: &str) -> (r: Option<i64>)
    ensures
        match bounded_integer(Text@, true, i64::MIN as int, i64::MAX as int) {
            Some(v) => r == Some(v as i64),
            None => r is None,
        },
{
    match ParseDecimal(Text, true, i64::MIN as i128, i64::MAX as i128) {
        Some(v) => Some(v as i64),
        None => None,
    }
}

} // verus!
