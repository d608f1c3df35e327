//! Small text utilities with exact contracts: decimal numbers, ASCII case
//! and letters.
use vstd::prelude::*;

verus! {

/// Whether `c` is a decimal digit.
pub open spec fn is_digit(c: char) -> bool {
    '0' <= c <= '9'
}

/// The value of a decimal digit.
pub open spec fn digit_value(c: char) -> nat {
    (c as u32 - '0' as u32) as nat
}

/// The value of a non-empty run of decimal digits.
pub open spec fn decimal_value(ds: Seq<char>) -> nat
    decreases ds.len(),
{
    if ds.len() == 0 {
        0
    } else {
        decimal_value(ds.drop_last()) * 10 + digit_value(ds.last())
    }
}

/// Whether every character of `s` is a decimal digit.
pub open spec fn all_digits(s: Seq<char>) -> bool {
    forall|i: int| 0 <= i < s.len() ==> is_digit(#[trigger] s[i])
}

/// The digits of a number in the syntax of `u32::from_str`: an optional
/// leading `+` followed by the digits.
pub open spec fn unsigned_digits(s: Seq<char>) -> Seq<char> {
    if s.len() > 0 && s[0] == '+' {
        s.drop_first()
    } else {
        s
    }
}

/// What `u32::from_str` gives for `s`: the value of the digits after an
/// optional `+`, when there is at least one digit, nothing else, and the
/// value fits.
pub open spec fn parse_u32_spec(s: Seq<char>) -> Option<u32> {
    let ds = unsigned_digits(s);
    if ds.len() > 0 && all_digits(ds) && decimal_value(ds) <= u32::MAX {
        Some(decimal_value(ds) as u32)
    } else {
        None
    }
}

/// The ASCII upper-case form of a character: `a`..`z` become `A`..`Z`, any
/// other character stays.
pub open spec fn ascii_upper(c: char) -> char {
    if 'a' <= c <= 'z' {
        ((c as u32) - 32) as char
    } else {
        c
    }
}

/// The ASCII upper-case form of a string.
pub open spec fn ascii_upper_seq(s: Seq<char>) -> Seq<char> {
    s.map_values(|c: char| ascii_upper(c))
}

/// Copy of `s` with ASCII letters in upper case (`str::to_ascii_uppercase`).
/// Its documentation states that `a` to `z` become `A` to `Z` and that every
/// other character is kept.
#[verifier::external_body]
pub(crate) fn to_ascii_uppercase(s: &str) -> (res: String)
    ensures
        res@ == ascii_upper_seq(s@),
{
    s.to_ascii_uppercase()
}

/// Whether `c` has the Unicode `Alphabetic` property, as
/// `char::is_alphabetic` decides it from the Unicode tables.
pub uninterp spec fn unicode_alphabetic(c: char) -> bool;

/// Whether `c` is alphabetic: among ASCII characters exactly the letters
/// `a`..`z` and `A`..`Z`; beyond ASCII, as the Unicode tables decide.
pub open spec fn alphabetic(c: char) -> bool {
    if (c as u32) <= 0x7f {
        ('a' <= c <= 'z') || ('A' <= c <= 'Z')
    } else {
        unicode_alphabetic(c)
    }
}

/// `char::is_alphabetic`: whether the character has the Unicode
/// `Alphabetic` property.  Among ASCII characters these are exactly the
/// letters; beyond ASCII the contract only names the answer, which the
/// Unicode tables give.
#[verifier::external_body]
pub(crate) fn is_alphabetic(c: char) -> (res: bool)
    ensures
        (c as u32) <= 0x7f ==> (res <==> ('a' <= c <= 'z') || ('A' <= c <= 'Z')),
        (c as u32) > 0x7f ==> res == unicode_alphabetic(c),
{
    c.is_alphabetic()
}

/// The number of bytes of a character in UTF-8.
pub open spec fn utf8_width(c: char) -> nat {
    if (c as u32) <= 0x7f {
        1
    } else if (c as u32) <= 0x7ff {
        2
    } else if (c as u32) <= 0xffff {
        3
    } else {
        4
    }
}

/// The number of bytes of a text in UTF-8.
pub open spec fn utf8_len(s: Seq<char>) -> nat
    decreases s.len(),
{
    if s.len() == 0 {
        0
    } else {
        utf8_len(s.drop_last()) + utf8_width(s.last())
    }
}

/// The number of bytes of a character in UTF-8 (`char::len_utf8`).
pub fn char_utf8_width(c: char) -> (res: usize)
    ensures
        res == utf8_width(c),
{
    let v = c as u32;
    if v <= 0x7f {
        1
    } else if v <= 0x7ff {
        2
    } else if v <= 0xffff {
        3
    } else {
        4
    }
}

/// Whether the UTF-8 form of the text is exactly `n` bytes long.
pub fn has_utf8_len(cs: &Vec<char>, n: usize) -> (res: bool)
    ensures
        res == (utf8_len(cs@) == n),
{
    let mut total: usize = 0;
    let mut i: usize = 0;
    while i < cs.len()
        invariant
            i <= cs@.len(),
            total == utf8_len(cs@.take(i as int)),
            total <= n,
        decreases cs.len() - i,
    {
        assert(cs@.take(i + 1).drop_last() =~= cs@.take(i as int));
        let w = char_utf8_width(cs[i]);
        if w > n - total {
            proof {
                lemma_utf8_len_monotone(cs@, i + 1);
            }
            return false;
        }
        total = total + w;
        i = i + 1;
    }
    assert(cs@.take(i as int) =~= cs@);
    total == n
}

/// A longer text is at least as long in UTF-8.
pub proof fn lemma_utf8_len_monotone(s: Seq<char>, k: int)
    requires
        0 <= k <= s.len(),
    ensures
        utf8_len(s) >= utf8_len(s.take(k)),
    decreases s.len(),
{
    if k < s.len() {
        assert(s.drop_last().take(k) =~= s.take(k));
        lemma_utf8_len_monotone(s.drop_last(), k);
    } else {
        assert(s.take(k) =~= s);
    }
}

/// The characters of a string.
pub fn chars_of(s: &str) -> (res: Vec<char>)
    ensures
        res@ == s@,
{
    let mut v: Vec<char> = Vec::new();
    for c in it: s.chars()
        invariant
            it.seq() == s@,
            v@ == it.seq().take(it.index() as int),
    {
        v.push(c);
        assert(v@ =~= it.seq().take(it.index() + 1));
    }
    assert(v@ =~= s@);
    v
}

/// Whether `cs[from..]` is a non-empty run of digits whose value fits
/// `limit`, and that value.
fn digits_value(cs: &Vec<char>, from: usize, limit: u64) -> (res: Option<u64>)
    requires
        from <= cs@.len(),
        limit <= u32::MAX,
    ensures
        res matches Some(v) ==> all_digits(cs@.skip(from as int)) && cs@.len() > from && v
            == decimal_value(cs@.skip(from as int)) && v <= limit,
        res is None ==> !(cs@.len() > from && all_digits(cs@.skip(from as int)) && decimal_value(
            cs@.skip(from as int),
        ) <= limit),
{
    let ghost ds = cs@.skip(from as int);
    if from == cs.len() {
        return None;
    }
    let mut value: u64 = 0;
    let mut i: usize = from;
    while i < cs.len()
        invariant
            from <= i <= cs@.len(),
            from < cs@.len(),
            limit <= u32::MAX,
            ds == cs@.skip(from as int),
            all_digits(ds.take(i - from)),
            value == decimal_value(ds.take(i - from)),
            value <= limit,
        decreases cs.len() - i,
    {
        let c = cs[i];
        let ghost pre = ds.take(i - from);
        assert(ds.take(i - from + 1) =~= pre.push(c));
        assert(ds.take(i - from + 1).drop_last() =~= pre);
        if !('0' <= c && c <= '9') {
            assert(!all_digits(ds)) by {
                assert(ds[i - from] == c);
            }
            return None;
        }
        let d = (c as u32 - '0' as u32) as u64;
        let next = value * 10 + d;
        assert(next == decimal_value(ds.take(i - from + 1)));
        if next > limit {
            proof {
                if all_digits(ds) {
                    lemma_decimal_value_monotone(ds, i - from + 1);
                }
            }
            return None;
        }
        value = next;
        i = i + 1;
    }
    assert(ds.take(i - from) =~= ds);
    Some(value)
}

/// Longer runs of digits have larger values.
proof fn lemma_decimal_value_monotone(ds: Seq<char>, k: int)
    requires
        0 <= k <= ds.len(),
        all_digits(ds),
    ensures
        decimal_value(ds) >= decimal_value(ds.take(k)),
    decreases ds.len(),
{
    if k < ds.len() {
        assert(ds.drop_last().take(k) =~= ds.take(k));
        lemma_decimal_value_monotone(ds.drop_last(), k);
    } else {
        assert(ds.take(k) =~= ds);
    }
}

/// The `i32` that a non-empty run of decimal digits (nothing else) stands
/// for, when it fits.
pub open spec fn digits_i32(s: Seq<char>) -> Option<i32> {
    if s.len() > 0 && all_digits(s) && decimal_value(s) <= i32::MAX {
        Some(decimal_value(s) as i32)
    } else {
        None
    }
}

/// Reads a non-empty run of decimal digits as an `i32`.
pub fn parse_digits_i32(cs: &Vec<char>) -> (res: Option<i32>)
    ensures
        res == digits_i32(cs@),
{
    assert(cs@.skip(0) =~= cs@);
    match digits_value(cs, 0, 0x7fff_ffff) {
        Some(v) => Some(v as i32),
        None => None,
    }
}

/// What `i32::from_str` gives for `s`: an optional `+` or `-` sign followed
/// by at least one digit and nothing else, whose value fits an `i32`.
pub open spec fn parse_i32_spec(s: Seq<char>) -> Option<i32> {
    let negative = s.len() > 0 && s[0] == '-';
    let ds = if s.len() > 0 && (s[0] == '+' || s[0] == '-') {
        s.drop_first()
    } else {
        s
    };
    if ds.len() > 0 && all_digits(ds) {
        if negative && decimal_value(ds) <= 0x8000_0000 {
            Some((0 - decimal_value(ds)) as i32)
        } else if !negative && decimal_value(ds) <= i32::MAX {
            Some(decimal_value(ds) as i32)
        } else {
            None
        }
    } else {
        None
    }
}

/// Parses a decimal number as `i32::from_str` does.
pub fn parse_i32(s: &str) -> (res: Option<i32>)
    ensures
        res == parse_i32_spec(s@),
{
    let cs = chars_of(s);
    let negative = cs.len() > 0 && cs[0] == '-';
    let from: usize = if cs.len() > 0 && (cs[0] == '+' || cs[0] == '-') {
        1
    } else {
        0
    };
    assert(cs@.skip(from as int) =~= (if s@.len() > 0 && (s@[0] == '+' || s@[0] == '-') {
        s@.drop_first()
    } else {
        s@
    }));
    let limit: u64 = if negative {
        0x8000_0000
    } else {
        0x7fff_ffff
    };
    match digits_value(&cs, from, limit) {
        Some(v) => {
            if negative {
                Some((0 - (v as i64)) as i32)
            } else {
                Some(v as i32)
            }
        },
        None => None,
    }
}

/// Parses a decimal number as `u32::from_str` does.
pub fn parse_u32(s: &str) -> (res: Option<u32>)
    ensures
        res == parse_u32_spec(s@),
{
    let cs = chars_of(s);
    let from: usize = if cs.len() > 0 && cs[0] == '+' { 1 } else { 0 };
    assert(cs@.skip(from as int) =~= unsigned_digits(s@));
    match digits_value(&cs, from, 0xffff_ffff) {
        Some(v) => Some(v as u32),
        None => None,
    }
}

} // verus!
