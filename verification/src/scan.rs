//! Reading text: whitespace trimming, prefixes, and integer parsing as `str::parse`
//! and `from_str_radix` do it.

use vstd::prelude::*;

verus! {

/// Characters with the Unicode `White_Space` property.
pub open spec fn is_unicode_whitespace(c: char) -> bool {
    let u = c as u32;
    ||| 0x09 <= u <= 0x0D
    ||| u == 0x20
    ||| u == 0x85
    ||| u == 0xA0
    ||| u == 0x1680
    ||| 0x2000 <= u <= 0x200A
    ||| u == 0x2028
    ||| u == 0x2029
    ||| u == 0x202F
    ||| u == 0x205F
    ||| u == 0x3000
}

/// The text with leading whitespace removed.
pub open spec fn trim_start_chars(s: Seq<char>) -> Seq<char>
    decreases s.len(),
{
    if s.len() > 0 && is_unicode_whitespace(s[0]) {
        trim_start_chars(s.drop_first())
    } else {
        s
    }
}

/// The text with trailing whitespace removed.
pub open spec fn trim_end_chars(s: Seq<char>) -> Seq<char>
    decreases s.len(),
{
    if s.len() > 0 && is_unicode_whitespace(s.last()) {
        trim_end_chars(s.drop_last())
    } else {
        s
    }
}

/// The text with whitespace removed at both ends.
pub open spec fn trim_chars(s: Seq<char>) -> Seq<char> {
    trim_end_chars(trim_start_chars(s))
}

pub fn is_whitespace(c: char) -> (r: bool)
    ensures
        r == is_unicode_whitespace(c),
{
    let u = c as u32;
    (0x09 <= u && u <= 0x0D) || u == 0x20 || u == 0x85 || u == 0xA0 || u == 0x1680 || (0x2000 <= u
        && u <= 0x200A) || u == 0x2028 || u == 0x2029 || u == 0x202F || u == 0x205F || u == 0x3000
}

proof fn lemma_trim_start_skip(s: Seq<char>, a: int)
    requires
        0 <= a <= s.len(),
        forall|k: int| 0 <= k < a ==> is_unicode_whitespace(#[trigger] s[k]),
        a == s.len() || !is_unicode_whitespace(s[a]),
    ensures
        trim_start_chars(s) == s.skip(a),
    decreases a,
{
    if a > 0 {
        let t = s.drop_first();
        assert forall|k: int| 0 <= k < a - 1 implies is_unicode_whitespace(#[trigger] t[k]) by {
            assert(t[k] == s[k + 1]);
        }
        if a < s.len() {
            assert(t[a - 1] == s[a]);
        }
        lemma_trim_start_skip(t, a - 1);
        assert(t.skip(a - 1) =~= s.skip(a));
    } else {
        assert(s.skip(0) =~= s);
    }
}

proof fn lemma_trim_end_take(s: Seq<char>, m: int)
    requires
        0 <= m <= s.len(),
        forall|k: int| m <= k < s.len() ==> is_unicode_whitespace(#[trigger] s[k]),
        m == 0 || !is_unicode_whitespace(s[m - 1]),
    ensures
        trim_end_chars(s) == s.take(m),
    decreases s.len() - m,
{
    if m < s.len() {
        let t = s.drop_last();
        assert(is_unicode_whitespace(s[s.len() - 1]));
        assert forall|k: int| m <= k < t.len() implies is_unicode_whitespace(#[trigger] t[k]) by {
            assert(t[k] == s[k]);
        }
        if m > 0 {
            assert(t[m - 1] == s[m - 1]);
        }
        lemma_trim_end_take(t, m);
        assert(t.take(m) =~= s.take(m));
    } else {
        assert(s.take(m) =~= s);
    }
}

/// `str::trim_start`.
pub fn trim_start(s: &str) -> (r: &str)
    ensures
        r@ == trim_start_chars(s@),
{
    let n = s.unicode_len();
    let mut a: usize = 0;
    while a < n
        invariant
            a <= n == s@.len(),
            forall|k: int| 0 <= k < a ==> is_unicode_whitespace(#[trigger] s@[k]),
        ensures
            a == n || !is_unicode_whitespace(s@[a as int]),
        decreases n - a,
    {
        if !is_whitespace(s.get_char(a)) {
            break;
        }
        a += 1;
    }
    proof {
        lemma_trim_start_skip(s@, a as int);
        assert(s@.subrange(a as int, n as int) =~= s@.skip(a as int));
    }
    s.substring_char(a, n)
}

/// `str::trim_end`.
pub fn trim_end(s: &str) -> (r: &str)
    ensures
        r@ == trim_end_chars(s@),
{
    let n = s.unicode_len();
    let mut m: usize = n;
    while m > 0
        invariant
            m <= n == s@.len(),
            forall|k: int| m <= k < n ==> is_unicode_whitespace(#[trigger] s@[k]),
        ensures
            m == 0 || !is_unicode_whitespace(s@[m - 1]),
        decreases m,
    {
        if !is_whitespace(s.get_char(m - 1)) {
            break;
        }
        m -= 1;
    }
    proof {
        lemma_trim_end_take(s@, m as int);
        assert(s@.subrange(0, m as int) =~= s@.take(m as int));
    }
    s.substring_char(0, m)
}

/// `str::trim`.
pub fn trim(s: &str) -> (r: &str)
    ensures
        r@ == trim_chars(s@),
{
    trim_end(trim_start(s))
}

/// `s` without the prefix `p`, when it starts with it.
pub fn strip_prefix<'a>(s: &'a str, p: &str) -> (r: Option<&'a str>)
    ensures
        match r {
            Some(t) => s@.len() >= p@.len() && s@.take(p@.len() as int) == p@ && t@ == s@.skip(
                p@.len() as int,
            ),
            None => !(s@.len() >= p@.len() && s@.take(p@.len() as int) == p@),
        },
{
    let n = s.unicode_len();
    let m = p.unicode_len();
    if m > n {
        return None;
    }
    let mut i: usize = 0;
    while i < m
        invariant
            i <= m <= n,
            n == s@.len(),
            m == p@.len(),
            forall|k: int| 0 <= k < i ==> s@[k] == p@[k],
        decreases m - i,
    {
        if s.get_char(i) != p.get_char(i) {
            proof {
                assert(s@.take(m as int)[i as int] != p@[i as int]);
            }
            return None;
        }
        i += 1;
    }
    proof {
        assert(s@.take(m as int) =~= p@);
        assert(s@.subrange(m as int, n as int) =~= s@.skip(m as int));
    }
    Some(s.substring_char(m, n))
}

/// Index of the first `c` in `s`, or its length.
pub open spec fn char_pos(s: Seq<char>, c: char) -> nat
    decreases s.len(),
{
    if s.len() == 0 {
        0
    } else if s[0] == c {
        0
    } else {
        1 + char_pos(s.drop_first(), c)
    }
}

proof fn lemma_char_pos(s: Seq<char>, c: char, i: int)
    requires
        0 <= i <= s.len(),
        forall|k: int| 0 <= k < i ==> #[trigger] s[k] != c,
        i == s.len() || s[i] == c,
    ensures
        char_pos(s, c) == i,
    decreases i,
{
    if i > 0 {
        let t = s.drop_first();
        assert forall|k: int| 0 <= k < i - 1 implies #[trigger] t[k] != c by {
            assert(t[k] == s[k + 1]);
        }
        if i < s.len() {
            assert(t[i - 1] == s[i]);
        }
        assert(s[0] != c);
        lemma_char_pos(t, c, i - 1);
    }
}

/// What `s.split(c).next()` gives: the text before the first `c`.
pub fn before_char(s: &str, c: char) -> (r: &str)
    ensures
        r@ == s@.take(char_pos(s@, c) as int),
{
    let n = s.unicode_len();
    let mut i: usize = 0;
    while i < n
        invariant
            i <= n == s@.len(),
            forall|k: int| 0 <= k < i ==> #[trigger] s@[k] != c,
        ensures
            i == n || s@[i as int] == c,
        decreases n - i,
    {
        if s.get_char(i) == c {
            break;
        }
        i += 1;
    }
    proof {
        lemma_char_pos(s@, c, i as int);
        assert(s@.subrange(0, i as int) =~= s@.take(i as int));
    }
    s.substring_char(0, i)
}

// ----------------------------------------------------------------------------
// Integers
// ----------------------------------------------------------------------------

/// `char::to_digit(radix)`: `0`-`9`, then `a`-`z` / `A`-`Z` as 10 to 35, when below
/// the radix.
pub open spec fn digit_of(c: char, radix: nat) -> Option<nat> {
    let u = c as u32;
    let v: int = if 48 <= u <= 57 {
        u - 48
    } else if 97 <= u <= 122 {
        u - 87
    } else if 65 <= u <= 90 {
        u - 55
    } else {
        99
    };
    if v < radix {
        Some(v as nat)
    } else {
        None
    }
}

/// Every character is a digit in `radix`.
pub open spec fn all_digits(s: Seq<char>, radix: nat) -> bool {
    forall|k: int| 0 <= k < s.len() ==> (#[trigger] digit_of(s[k], radix)) is Some
}

/// The value of a digit string, most significant first.
pub open spec fn digits_value(s: Seq<char>, radix: nat) -> nat
    decreases s.len(),
{
    if s.len() == 0 {
        0
    } else {
        digits_value(s.drop_last(), radix) * radix + match digit_of(s.last(), radix) {
            Some(d) => d,
            None => 0,
        }
    }
}

/// The digits of an integer text after an optional leading sign.
pub open spec fn unsigned_digits(s: Seq<char>) -> Seq<char> {
    if s.len() > 0 && s[0] == '+' {
        s.drop_first()
    } else {
        s
    }
}

/// `u64::from_str_radix(s, radix)` (and `s.parse::<u64>()` for radix 10): an
/// optional `+`, then at least one digit, with a value that fits.
pub open spec fn parse_unsigned(s: Seq<char>, radix: nat) -> Option<u64> {
    let d = unsigned_digits(s);
    if d.len() > 0 && all_digits(d, radix) && digits_value(d, radix) <= u64::MAX {
        Some(digits_value(d, radix) as u64)
    } else {
        None
    }
}

/// `s.parse::<i32>()`: an optional `+` or `-`, then at least one decimal digit, with a
/// value in range.
pub open spec fn parse_i32_chars(s: Seq<char>) -> Option<i32> {
    let neg = s.len() > 0 && s[0] == '-';
    let d = if s.len() > 0 && (s[0] == '+' || s[0] == '-') {
        s.drop_first()
    } else {
        s
    };
    let v = digits_value(d, 10);
    if d.len() > 0 && all_digits(d, 10) && (if neg {
        v <= 0x8000_0000
    } else {
        v <= 0x7FFF_FFFF
    }) {
        Some((if neg {
            -v
        } else {
            v as int
        }) as i32)
    } else {
        None
    }
}

fn digit(c: char, radix: u32) -> (r: Option<u32>)
    requires
        2 <= radix <= 36,
    ensures
        match r {
            Some(v) => digit_of(c, radix as nat) == Some(v as nat),
            None => digit_of(c, radix as nat) is None,
        },
{
    let u = c as u32;
    let v: u32 = if 48 <= u && u <= 57 {
        u - 48
    } else if 97 <= u && u <= 122 {
        u - 87
    } else if 65 <= u && u <= 90 {
        u - 55
    } else {
        99
    };
    if v < radix {
        Some(v)
    } else {
        None
    }
}

proof fn lemma_value_take_step(s: Seq<char>, i: int, radix: nat)
    requires
        0 <= i < s.len(),
    ensures
        digits_value(s.take(i + 1), radix) == digits_value(s.take(i), radix) * radix + match digit_of(
            s[i],
            radix,
        ) {
            Some(d) => d,
            None => 0,
        },
{
    assert(s.take(i + 1).drop_last() =~= s.take(i));
}

proof fn lemma_value_prefix_le(s: Seq<char>, i: int, radix: nat)
    requires
        0 <= i <= s.len(),
        radix >= 1,
    ensures
        digits_value(s.take(i), radix) <= digits_value(s, radix),
    decreases s.len(),
{
    if i < s.len() {
        let t = s.drop_last();
        lemma_value_prefix_le(t, i, radix);
        assert(t.take(i) =~= s.take(i));
        let x = digits_value(t, radix);
        let d: nat = match digit_of(s.last(), radix) {
            Some(d) => d,
            None => 0,
        };
        assert(x * radix + d >= x) by (nonlinear_arith)
            requires
                radix >= 1,
        ;
    } else {
        assert(s.take(i) =~= s);
    }
}

/// The value of the digit string `s` when it fits in a `u64`.
fn digits_u64(s: &str, radix: u32) -> (r: Option<u64>)
    requires
        2 <= radix <= 36,
    ensures
        match r {
            Some(v) => s@.len() > 0 && all_digits(s@, radix as nat) && v == digits_value(
                s@,
                radix as nat,
            ),
            None => !(s@.len() > 0 && all_digits(s@, radix as nat) && digits_value(s@, radix as nat)
                <= u64::MAX),
        },
{
    let n = s.unicode_len();
    if n == 0 {
        return None;
    }
    let mut acc: u64 = 0;
    let mut i: usize = 0;
    while i < n
        invariant
            i <= n == s@.len(),
            2 <= radix <= 36,
            all_digits(s@.take(i as int), radix as nat),
            acc == digits_value(s@.take(i as int), radix as nat),
        decreases n - i,
    {
        let d = match digit(s.get_char(i), radix) {
            Some(d) => d,
            None => {
                proof {
                    assert(digit_of(s@[i as int], radix as nat) is None);
                }
                return None;
            },
        };
        proof {
            lemma_value_take_step(s@, i as int, radix as nat);
        }
        let next = match acc.checked_mul(radix as u64) {
            Some(m) => m.checked_add(d as u64),
            None => None,
        };
        match next {
            Some(v) => {
                acc = v;
            },
            None => {
                proof {
                    let ghost w = digits_value(s@.take(i + 1), radix as nat);
                    assert(w > u64::MAX) by (nonlinear_arith)
                        requires
                            w == acc * radix + d,
                            acc * radix > u64::MAX || acc * radix + d > u64::MAX,
                            d >= 0,
                    ;
                    if all_digits(s@, radix as nat) {
                        lemma_value_prefix_le(s@, i + 1, radix as nat);
                    }
                }
                return None;
            },
        }
        i += 1;
        proof {
            assert forall|k: int| 0 <= k < i implies (#[trigger] digit_of(
                s@.take(i as int)[k],
                radix as nat,
            )) is Some by {
                if k < i - 1 {
                    assert(s@.take(i as int)[k] == s@.take(i - 1)[k]);
                }
            }
        }
    }
    proof {
        assert(s@.take(n as int) =~= s@);
    }
    Some(acc)
}

/// `u64::from_str_radix`.
pub fn parse_u64_radix(s: &str, radix: u32) -> (r: Option<u64>)
    requires
        2 <= radix <= 36,
    ensures
        r == parse_unsigned(s@, radix as nat),
{
    let n = s.unicode_len();
    let d = if n > 0 && s.get_char(0) == '+' {
        s.substring_char(1, n)
    } else {
        s
    };
    proof {
        if n > 0 && s@[0] == '+' {
            assert(d@ =~= s@.drop_first());
        }
    }
    digits_u64(d, radix)
}

/// `s.parse::<u64>()`.
pub fn parse_u64(s: &str) -> (r: Option<u64>)
    ensures
        r == parse_unsigned(s@, 10),
{
    parse_u64_radix(s, 10)
}

/// `s.parse::<i32>()`.
pub fn parse_i32(s: &str) -> (r: Option<i32>)
    ensures
        r == parse_i32_chars(s@),
{
    let n = s.unicode_len();
    let first = if n > 0 { s.get_char(0) } else { ' ' };
    let neg = n > 0 && first == '-';
    let d = if n > 0 && (first == '+' || first == '-') {
        s.substring_char(1, n)
    } else {
        s
    };
    proof {
        if n > 0 && (s@[0] == '+' || s@[0] == '-') {
            assert(d@ =~= s@.drop_first());
        }
    }
    match digits_u64(d, 10) {
        Some(v) => {
            if neg {
                if v <= 0x8000_0000 {
                    Some((0 - (v as i64)) as i32)
                } else {
                    None
                }
            } else {
                if v <= 0x7FFF_FFFF {
                    Some(v as i32)
                } else {
                    None
                }
            }
        },
        None => None,
    }
}

} // verus!
