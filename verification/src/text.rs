use vstd::prelude::*;

use crate::mwo_types::Decimal;

verus! {

/// The characters of `s`, one by one.
pub fn to_chars(s: &str) -> (v: Vec<char>)
    ensures
        v@ == s@,
{
    let mut v: Vec<char> = Vec::new();
    for c in it: s.chars()
        invariant
            it.seq() == s@,
            v@ == s@.subrange(0, it.index() as int),
    {
        v.push(c);
    }
    v
}

/// Whether two character sequences hold the same characters.
pub fn chars_eq(a: &[char], b: &[char]) -> (r: bool)
    ensures
        r == (a@ == b@),
{
    if a.len() != b.len() {
        return false;
    }
    let mut i: usize = 0;
    while i < a.len()
        invariant
            a@.len() == b@.len(),
            i <= a@.len(),
            a@.subrange(0, i as int) == b@.subrange(0, i as int),
        decreases a@.len() - i,
    {
        if a[i] != b[i] {
            return false;
        }
        i = i + 1;
    }
    assert(a@ == a@.subrange(0, i as int));
    assert(b@ == b@.subrange(0, i as int));
    true
}

/// Whether two strings hold the same characters.
pub fn str_eq(a: &str, b: &str) -> (r: bool)
    ensures
        r == (a@ == b@),
{
    let x = to_chars(a);
    let y = to_chars(b);
    chars_eq(x.as_slice(), y.as_slice())
}

/// What each string of a run holds.
pub open spec fn strings_view(strings: Seq<String>) -> Seq<Seq<char>> {
    strings.map_values(|s: String| s@)
}

/// What each character vector of a run holds.
pub open spec fn chars_view(vectors: Seq<Vec<char>>) -> Seq<Seq<char>> {
    vectors.map_values(|v: Vec<char>| v@)
}

/// The pieces of `s` between the occurrences of `sep`, in order: one more
/// than there are occurrences, empty pieces included.
pub open spec fn split_spec(s: Seq<char>, sep: char) -> Seq<Seq<char>>
    decreases s.len(),
{
    if s.len() == 0 {
        seq![Seq::empty()]
    } else {
        let before = split_spec(s.drop_last(), sep);
        if s.last() == sep {
            before.push(Seq::empty())
        } else {
            before.update(before.len() - 1, before.last().push(s.last()))
        }
    }
}

/// Whether `s` begins with `prefix`.
pub fn starts_with(s: &[char], prefix: &[char]) -> (r: bool)
    ensures
        r == prefix@.is_prefix_of(s@),
{
    if prefix.len() > s.len() {
        return false;
    }
    let mut i: usize = 0;
    while i < prefix.len()
        invariant
            prefix@.len() <= s@.len(),
            i <= prefix@.len(),
            forall|k: int| 0 <= k < i ==> prefix@[k] == s@[k],
        decreases prefix@.len() - i,
    {
        if prefix[i] != s[i] {
            return false;
        }
        i = i + 1;
    }
    true
}

/// Whether `s` ends with `suffix`.
pub fn ends_with(s: &[char], suffix: &[char]) -> (r: bool)
    ensures
        r == suffix@.is_suffix_of(s@),
{
    if suffix.len() > s.len() {
        return false;
    }
    let shift: usize = s.len() - suffix.len();
    let mut i: usize = 0;
    while i < suffix.len()
        invariant
            suffix@.len() <= s@.len(),
            shift == s@.len() - suffix@.len(),
            s@.len() <= usize::MAX,
            i <= suffix@.len(),
            forall|k: int| 0 <= k < i ==> suffix@[k] == s@[shift + k],
        decreases suffix@.len() - i,
    {
        if suffix[i] != s[shift + i] {
            return false;
        }
        i = i + 1;
    }
    true
}

/// The pieces of `s` between the occurrences of `sep`.
pub fn split(s: &str, sep: char) -> (pieces: Vec<String>)
    ensures
        strings_view(pieces@) == split_spec(s@, sep),
{
    let chars = to_chars(s);
    let n: usize = chars.len();
    let mut pieces: Vec<String> = Vec::new();
    let mut start: usize = 0;
    let mut i: usize = 0;
    assert(s@.subrange(0, 0) == Seq::<char>::empty());
    while i < n
        invariant
            chars@ == s@,
            n == s@.len(),
            start <= i <= n,
            split_spec(s@.subrange(0, i as int), sep) == strings_view(pieces@).push(
                s@.subrange(start as int, i as int),
            ),
        decreases n - i,
    {
        let ghost done = strings_view(pieces@);
        assert(s@.subrange(0, i + 1).drop_last() == s@.subrange(0, i as int));
        if chars[i] == sep {
            let piece = s.substring_char(start, i).to_owned();
            pieces.push(piece);
            start = i + 1;
            assert(s@.subrange(start as int, i + 1) == Seq::<char>::empty());
        } else {
            assert(s@.subrange(start as int, i as int).push(s@[i as int]) == s@.subrange(
                start as int,
                i + 1,
            ));
            assert(done.push(s@.subrange(start as int, i as int)).update(
                done.len() as int,
                s@.subrange(start as int, i as int).push(s@[i as int]),
            ) == done.push(s@.subrange(start as int, i + 1)));
        }
        i = i + 1;
    }
    assert(s@.subrange(0, n as int) == s@);
    let piece = s.substring_char(start, n).to_owned();
    pieces.push(piece);
    pieces
}

/// What `str::to_lowercase` makes of a string: the string in lower case, by
/// the rules of Unicode.
pub uninterp spec fn lowercased(s: Seq<char>) -> Seq<char>;

/// `str::to_lowercase`. Its result depends on the characters alone, so it has
/// a name, `lowercased`; of the characters themselves nothing is claimed.
#[verifier::external_body]
pub(crate) fn to_lowercase(s: &str) -> (lower: String)
    ensures
        lower@ == lowercased(s@),
{
    s.to_lowercase()
}

/// Whether `c` is one of the digits `0` to `9`.
pub open spec fn is_digit(c: char) -> bool {
    '0' <= c <= '9'
}

/// Whether `s` holds digits alone.
pub open spec fn all_digits(s: Seq<char>) -> bool {
    forall|i: int| 0 <= i < s.len() ==> is_digit(#[trigger] s[i])
}

/// The number that the digits `s` write in base ten.
pub open spec fn digits_value(s: Seq<char>) -> int
    decreases s.len(),
{
    if s.len() == 0 {
        0
    } else {
        digits_value(s.drop_last()) * 10 + (s.last() as int - '0' as int)
    }
}

/// The whole number that `s` writes: digits, at least one, behind an optional
/// sign; a minus sign only where `signed`.
pub open spec fn integer_spec(s: Seq<char>, signed: bool) -> Option<int> {
    let negative = s.len() > 0 && s[0] == '-';
    let digits = if s.len() > 0 && (s[0] == '+' || s[0] == '-') {
        s.subrange(1, s.len() as int)
    } else {
        s
    };
    if digits.len() == 0 || !all_digits(digits) || (negative && !signed) {
        None
    } else if negative {
        Some(-digits_value(digits))
    } else {
        Some(digits_value(digits))
    }
}

/// The number that `s` writes, where it is one that an `i32` holds.
pub open spec fn i32_spec(s: Seq<char>) -> Option<i32> {
    match integer_spec(s, true) {
        Some(v) => if i32::MIN <= v <= i32::MAX {
            Some(v as i32)
        } else {
            None
        },
        None => None,
    }
}

/// The number that `s` writes without a minus sign, where it is one that a
/// `u8` holds.
pub open spec fn u8_spec(s: Seq<char>) -> Option<u8> {
    match integer_spec(s, false) {
        Some(v) => if v <= u8::MAX {
            Some(v as u8)
        } else {
            None
        },
        None => None,
    }
}

/// The first `places` digits of the fraction `s` as a whole number, with
/// zeros for the digits that `s` lacks.
pub open spec fn fraction_value(s: Seq<char>, places: nat) -> int
    decreases places,
{
    if places == 0 {
        0
    } else {
        let digit = if s.len() >= places {
            s[places - 1] as int - '0' as int
        } else {
            0
        };
        fraction_value(s, (places - 1) as nat) * 10 + digit
    }
}

/// Where the digits of the whole part of the decimal `body` end: at its
/// first point, or at its end.
pub open spec fn point_at(body: Seq<char>) -> int
    decreases body.len(),
{
    if body.len() == 0 || body[0] == '.' {
        0
    } else {
        1 + point_at(body.drop_first())
    }
}

/// The decimal number that `s` writes, in millionths: an optional sign, then
/// digits with at most one point among them, and a digit on at least one
/// side of it. Digits behind the sixth place of the fraction are left out.
pub open spec fn decimal_spec(s: Seq<char>) -> Option<int> {
    let negative = s.len() > 0 && s[0] == '-';
    let body = if s.len() > 0 && (s[0] == '+' || s[0] == '-') {
        s.subrange(1, s.len() as int)
    } else {
        s
    };
    let point = point_at(body);
    let whole = body.subrange(0, point);
    let fraction = if point < body.len() {
        body.subrange(point + 1, body.len() as int)
    } else {
        Seq::empty()
    };
    if (whole.len() == 0 && fraction.len() == 0) || !all_digits(whole) || !all_digits(fraction) {
        None
    } else {
        let micros = digits_value(whole) * 1_000_000 + fraction_value(fraction, 6);
        if negative {
            Some(-micros)
        } else {
            Some(micros)
        }
    }
}

/// The decimal that `s` writes, where its millionths are a number that an
/// `i64` holds.
pub open spec fn decimal_i64_spec(s: Seq<char>) -> Option<i64> {
    match decimal_spec(s) {
        Some(v) => if i64::MIN <= v <= i64::MAX {
            Some(v as i64)
        } else {
            None
        },
        None => None,
    }
}

/// Digits write no negative number.
proof fn lemma_digits_value_bounds(s: Seq<char>)
    requires
        all_digits(s),
    ensures
        digits_value(s) >= 0,
    decreases s.len(),
{
    if s.len() > 0 {
        assert forall|i: int| 0 <= i < s.drop_last().len() implies is_digit(
            #[trigger] s.drop_last()[i],
        ) by {}
        lemma_digits_value_bounds(s.drop_last());
    }
}

/// What `point_at` says of its result: no point stands before it, and where
/// it is a place of `body`, a point stands there.
proof fn lemma_point_at(body: Seq<char>)
    ensures
        0 <= point_at(body) <= body.len(),
        forall|i: int| 0 <= i < point_at(body) ==> body[i] != '.',
        point_at(body) < body.len() ==> body[point_at(body)] == '.',
    decreases body.len(),
{
    if body.len() > 0 && body[0] != '.' {
        let rest = body.drop_first();
        lemma_point_at(rest);
        assert forall|i: int| 0 <= i < point_at(body) implies body[i] != '.' by {
            if i > 0 {
                assert(rest[i - 1] == body[i]);
            }
        }
    }
}

/// The place with no point before it, that holds a point or is the end, is
/// the one that `point_at` names.
pub proof fn lemma_point_found(body: Seq<char>, at: int)
    requires
        0 <= at <= body.len(),
        forall|i: int| 0 <= i < at ==> body[i] != '.',
        at < body.len() ==> body[at] == '.',
    ensures
        point_at(body) == at,
{
    lemma_point_at(body);
}

/// The digits of `chars` from `from` to `to` as a number, or one more than
/// `limit` where the number is larger; `None` where a character among them is
/// no digit.
fn read_digits(chars: &[char], from: usize, to: usize, limit: u64) -> (r: Option<u64>)
    requires
        from <= to <= chars@.len(),
        limit <= 0x1000_0000_0000_0000,
    ensures
        match r {
            Some(v) => {
                &&& all_digits(chars@.subrange(from as int, to as int))
                &&& digits_value(chars@.subrange(from as int, to as int)) <= limit ==> v
                    == digits_value(chars@.subrange(from as int, to as int))
                &&& digits_value(chars@.subrange(from as int, to as int)) > limit ==> v == limit
                    + 1
            },
            None => !all_digits(chars@.subrange(from as int, to as int)),
        },
{
    let mut value: u64 = 0;
    let mut i: usize = from;
    while i < to
        invariant
            from <= i <= to <= chars@.len(),
            limit <= 0x1000_0000_0000_0000,
            all_digits(chars@.subrange(from as int, i as int)),
            value <= limit + 1,
            digits_value(chars@.subrange(from as int, i as int)) <= limit ==> value
                == digits_value(chars@.subrange(from as int, i as int)),
            digits_value(chars@.subrange(from as int, i as int)) > limit ==> value == limit + 1,
        decreases to - i,
    {
        let c = chars[i];
        let ghost before = chars@.subrange(from as int, i as int);
        let ghost now = chars@.subrange(from as int, i + 1);
        assert(now.drop_last() == before);
        assert(now.last() == c);
        if !('0' <= c && c <= '9') {
            return None;
        }
        assert forall|k: int| 0 <= k < now.len() implies is_digit(#[trigger] now[k]) by {}
        proof {
            lemma_digits_value_bounds(before);
        }
        let digit: u64 = (c as u32 - '0' as u32) as u64;
        let next: u64 = value * 10 + digit;
        value = if next > limit {
            limit + 1
        } else {
            next
        };
        i = i + 1;
    }
    Some(value)
}

/// Reads a whole number that an `i32` holds.
pub fn parse_i32(s: &str) -> (r: Option<i32>)
    ensures
        r == i32_spec(s@),
{
    let chars = to_chars(s);
    let n: usize = chars.len();
    let negative: bool = n > 0 && chars[0] == '-';
    let from: usize = if n > 0 && (chars[0] == '+' || chars[0] == '-') {
        1
    } else {
        0
    };
    assert(chars@.subrange(0, n as int) == chars@);
    if from == n {
        return None;
    }
    match read_digits(chars.as_slice(), from, n, 0x8000_0000) {
        None => None,
        Some(v) => {
            if negative {
                if v > 0x8000_0000 {
                    None
                } else {
                    Some((-(v as i64)) as i32)
                }
            } else {
                if v > 0x7fff_ffff {
                    None
                } else {
                    Some(v as i32)
                }
            }
        },
    }
}

/// Reads a whole number that a `u8` holds; a minus sign is not read.
pub fn parse_u8(s: &str) -> (r: Option<u8>)
    ensures
        r == u8_spec(s@),
{
    let chars = to_chars(s);
    let n: usize = chars.len();
    let from: usize = if n > 0 && (chars[0] == '+' || chars[0] == '-') {
        1
    } else {
        0
    };
    assert(chars@.subrange(0, n as int) == chars@);
    if from == n || chars[0] == '-' {
        return None;
    }
    match read_digits(chars.as_slice(), from, n, 255) {
        None => None,
        Some(v) => {
            if v > 255 {
                None
            } else {
                Some(v as u8)
            }
        },
    }
}

/// The first six digits of the fraction that `chars` holds from `from` on.
fn read_fraction(chars: &[char], from: usize) -> (value: u64)
    requires
        from <= chars@.len(),
        all_digits(chars@.subrange(from as int, chars@.len() as int)),
    ensures
        value == fraction_value(chars@.subrange(from as int, chars@.len() as int), 6),
        value < 1_000_000,
{
    let ghost fraction = chars@.subrange(from as int, chars@.len() as int);
    let mut value: u64 = 0;
    let mut place: usize = 0;
    let mut bound: u64 = 1;
    while place < 6
        invariant
            from <= chars@.len(),
            fraction == chars@.subrange(from as int, chars@.len() as int),
            all_digits(fraction),
            place <= 6,
            value == fraction_value(fraction, place as nat),
            value < bound,
            bound <= 1_000_000,
            place == 0 ==> bound == 1,
            place == 1 ==> bound == 10,
            place == 2 ==> bound == 100,
            place == 3 ==> bound == 1000,
            place == 4 ==> bound == 10_000,
            place == 5 ==> bound == 100_000,
            place == 6 ==> bound == 1_000_000,
        decreases 6 - place,
    {
        let digit: u64 = if place < chars.len() - from {
            let c = chars[from + place];
            assert(fraction[place as int] == c);
            (c as u32 - '0' as u32) as u64
        } else {
            0
        };
        value = value * 10 + digit;
        bound = bound * 10;
        place = place + 1;
    }
    value
}

/// The decimal that `s` writes, by its parts: the digits before the place
/// `point` of the point, behind a sign that ends at `from`, and the digits
/// after the point.
pub open spec fn decimal_by_parts(s: Seq<char>, from: int, point: int) -> Option<int> {
    let whole = s.subrange(from, point);
    let fraction = s.subrange(
        if point < s.len() {
            point + 1
        } else {
            s.len() as int
        },
        s.len() as int,
    );
    if (whole.len() == 0 && fraction.len() == 0) || !all_digits(whole) || !all_digits(fraction) {
        None
    } else {
        let micros = digits_value(whole) * 1_000_000 + fraction_value(fraction, 6);
        if s.len() > 0 && s[0] == '-' {
            Some(-micros)
        } else {
            Some(micros)
        }
    }
}

/// A decimal parted at its first point is the decimal by its parts.
proof fn lemma_decimal_by_parts(s: Seq<char>, from: int, point: int)
    requires
        from == if s.len() > 0 && (s[0] == '+' || s[0] == '-') {
            1int
        } else {
            0int
        },
        from <= point <= s.len(),
        forall|i: int| from <= i < point ==> s[i] != '.',
        point < s.len() ==> s[point] == '.',
    ensures
        decimal_spec(s) == decimal_by_parts(s, from, point),
{
    let body = if s.len() > 0 && (s[0] == '+' || s[0] == '-') {
        s.subrange(1, s.len() as int)
    } else {
        s
    };
    assert forall|i: int| 0 <= i < point - from implies body[i] != '.' by {}
    lemma_point_found(body, point - from);
    assert(body.subrange(0, point - from) == s.subrange(from, point));
    if point < s.len() {
        assert(body.subrange(point - from + 1, body.len() as int) == s.subrange(
            point + 1,
            s.len() as int,
        ));
    } else {
        assert(s.subrange(s.len() as int, s.len() as int) == Seq::<char>::empty());
    }
}

/// Reads a decimal number, to the millionth.
pub fn parse_decimal(s: &str) -> (r: Option<Decimal>)
    ensures
        match r {
            Some(d) => decimal_i64_spec(s@) == Some(d.micros),
            None => decimal_i64_spec(s@) is None,
        },
{
    let chars = to_chars(s);
    let n: usize = chars.len();
    let negative: bool = n > 0 && chars[0] == '-';
    let from: usize = if n > 0 && (chars[0] == '+' || chars[0] == '-') {
        1
    } else {
        0
    };
    let mut point: usize = from;
    while point < n && chars[point] != '.'
        invariant
            from <= point <= n,
            n == chars@.len(),
            forall|i: int| from <= i < point ==> chars@[i] != '.',
        decreases n - point,
    {
        point = point + 1;
    }
    let after: usize = if point < n {
        point + 1
    } else {
        n
    };
    proof {
        lemma_decimal_by_parts(chars@, from as int, point as int);
    }
    let ghost whole_digits = chars@.subrange(from as int, point as int);
    if point == from && after == n {
        return None;
    }
    let whole = match read_digits(chars.as_slice(), from, point, 0x10_0000_0000_0000) {
        None => {
            return None;
        },
        Some(v) => v,
    };
    match read_digits(chars.as_slice(), after, n, 0) {
        None => {
            return None;
        },
        Some(_) => {},
    }
    let fraction = read_fraction(chars.as_slice(), after);
    proof {
        lemma_digits_value_bounds(whole_digits);
    }
    if whole > 0x10_0000_0000_0000 {
        return None;
    }
    let micros: i128 = (whole as i128) * 1_000_000 + fraction as i128;
    let signed: i128 = if negative {
        -micros
    } else {
        micros
    };
    if signed < i64::MIN as i128 || signed > i64::MAX as i128 {
        return None;
    }
    Some(Decimal { micros: signed as i64 })
}

} // verus!
