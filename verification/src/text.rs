//! Character-level text primitives shared by the option parsers: whitespace
//! trimming, splitting on separator characters, and integer parsing with the
//! exact acceptance rules of std's integer `FromStr`.

use vstd::prelude::*;
use vstd::string::*;

verus! {

/// The characters for which `char::is_whitespace` holds (Unicode `White_Space`).
pub open spec fn is_space(c: char) -> bool {
    ||| c == '\t'
    ||| c == '\n'
    ||| c == '\x0B'
    ||| c == '\x0C'
    ||| c == '\r'
    ||| c == ' '
    ||| c == '\u{85}'
    ||| c == '\u{A0}'
    ||| c == '\u{1680}'
    ||| ('\u{2000}' <= c && c <= '\u{200A}')
    ||| c == '\u{2028}'
    ||| c == '\u{2029}'
    ||| c == '\u{202F}'
    ||| c == '\u{205F}'
    ||| c == '\u{3000}'
}

pub fn char_is_space(c: char) -> (b: bool)
    ensures
        b == is_space(c),
{
    c == '\t' || c == '\n' || c == '\x0B' || c == '\x0C' || c == '\r' || c == ' ' || c == '\u{85}'
        || c == '\u{A0}' || c == '\u{1680}' || ('\u{2000}' <= c && c <= '\u{200A}') || c
        == '\u{2028}' || c == '\u{2029}' || c == '\u{202F}' || c == '\u{205F}' || c == '\u{3000}'
}

/// Number of whitespace characters at the start of `s`.
pub open spec fn leading_spaces(s: Seq<char>) -> nat
    decreases s.len(),
{
    if s.len() > 0 && is_space(s[0]) {
        1 + leading_spaces(s.drop_first())
    } else {
        0
    }
}

/// Number of whitespace characters at the end of `s`.
pub open spec fn trailing_spaces(s: Seq<char>) -> nat
    decreases s.len(),
{
    if s.len() > 0 && is_space(s.last()) {
        1 + trailing_spaces(s.drop_last())
    } else {
        0
    }
}

/// `str::trim`: `s` without its leading and trailing whitespace.
pub open spec fn trim(s: Seq<char>) -> Seq<char> {
    let t = s.skip(leading_spaces(s) as int);
    t.take(t.len() - trailing_spaces(t))
}

/// `s.split(c)` for every `c` in `seps`: the pieces between separators, empty
/// pieces included; there is always one more piece than separators.
pub open spec fn split_on(s: Seq<char>, seps: Seq<char>) -> Seq<Seq<char>>
    decreases s.len(),
{
    if s.len() == 0 {
        seq![Seq::empty()]
    } else {
        let prev = split_on(s.drop_last(), seps);
        if seps.contains(s.last()) {
            prev.push(Seq::empty())
        } else {
            prev.update(prev.len() - 1, prev.last().push(s.last()))
        }
    }
}

/// The value of digit `c` in base 10 (or base 16 when `hex`), if it is one.
pub open spec fn digit_value(c: char, hex: bool) -> Option<nat> {
    if '0' <= c && c <= '9' {
        Some((c as int - '0' as int) as nat)
    } else if hex && 'a' <= c && c <= 'f' {
        Some((c as int - 'a' as int + 10) as nat)
    } else if hex && 'A' <= c && c <= 'F' {
        Some((c as int - 'A' as int + 10) as nat)
    } else {
        None
    }
}

pub open spec fn radix(hex: bool) -> nat {
    if hex {
        16
    } else {
        10
    }
}

pub open spec fn all_digits(s: Seq<char>, hex: bool) -> bool {
    forall|i: int| 0 <= i < s.len() ==> (#[trigger] digit_value(s[i], hex)) is Some
}

/// The number that the digit string `s` denotes.
pub open spec fn digits_value(s: Seq<char>, hex: bool) -> nat
    decreases s.len(),
{
    if s.len() == 0 {
        0
    } else {
        digits_value(s.drop_last(), hex) * radix(hex) + match digit_value(s.last(), hex) {
            Some(d) => d,
            None => 0,
        }
    }
}

/// A sign character alone, or nothing at all: std's integer parsers refuse both.
pub open spec fn bare_sign_or_empty(s: Seq<char>) -> bool {
    s.len() == 0 || (s.len() == 1 && (s[0] == '+' || s[0] == '-'))
}

/// What `from_str_radix` gives for an unsigned integer type whose maximum is
/// `max`: an optional `+`, then at least one digit, with a value up to `max`.
pub open spec fn parse_unsigned(s: Seq<char>, hex: bool, max: nat) -> Option<nat> {
    if bare_sign_or_empty(s) {
        None
    } else {
        let d = if s[0] == '+' {
            s.drop_first()
        } else {
            s
        };
        if all_digits(d, hex) && digits_value(d, hex) <= max {
            Some(digits_value(d, hex))
        } else {
            None
        }
    }
}

/// What `str::parse::<i32>` gives: an optional sign, then at least one
/// decimal digit, with a value in the range of `i32`.
pub open spec fn parse_i32_spec(s: Seq<char>) -> Option<int> {
    if bare_sign_or_empty(s) {
        None
    } else if s[0] == '-' {
        let d = s.drop_first();
        if all_digits(d, false) && digits_value(d, false) <= 0x8000_0000 {
            Some(-digits_value(d, false))
        } else {
            None
        }
    } else {
        match parse_unsigned(s, false, 0x7fff_ffff) {
            Some(v) => Some(v as int),
            None => None,
        }
    }
}

pub proof fn lemma_leading_spaces(s: Seq<char>, k: int)
    requires
        0 <= k <= s.len(),
        forall|i: int| 0 <= i < k ==> is_space(#[trigger] s[i]),
        k == s.len() || !is_space(s[k]),
    ensures
        leading_spaces(s) == k,
    decreases k,
{
    if k > 0 {
        lemma_leading_spaces(s.drop_first(), k - 1);
    }
}

pub proof fn lemma_trailing_spaces(s: Seq<char>, k: int)
    requires
        0 <= k <= s.len(),
        forall|i: int| s.len() - k <= i < s.len() ==> is_space(#[trigger] s[i]),
        k == s.len() || !is_space(s[s.len() - k - 1]),
    ensures
        trailing_spaces(s) == k,
    decreases k,
{
    if k > 0 {
        let t = s.drop_last();
        assert forall|i: int| t.len() - (k - 1) <= i < t.len() implies is_space(#[trigger] t[i]) by {
            assert(t[i] == s[i]);
        }
        if k - 1 < t.len() {
            assert(t[t.len() - (k - 1) - 1] == s[s.len() - k - 1]);
        }
        lemma_trailing_spaces(t, k - 1);
    }
}

pub proof fn lemma_split_nonempty(s: Seq<char>, seps: Seq<char>)
    ensures
        split_on(s, seps).len() >= 1,
    decreases s.len(),
{
    if s.len() > 0 {
        lemma_split_nonempty(s.drop_last(), seps);
    }
}

/// Digit strings only grow in value as digits are appended.
pub proof fn lemma_digits_prefix_le(s: Seq<char>, hex: bool, k: int)
    requires
        0 <= k <= s.len(),
    ensures
        digits_value(s.take(k), hex) <= digits_value(s, hex),
    decreases s.len(),
{
    if k < s.len() {
        let t = s.drop_last();
        assert(t.take(k) == s.take(k));
        lemma_digits_prefix_le(t, hex, k);
        let r = radix(hex);
        let a = digits_value(t, hex);
        assert(a * r >= a) by (nonlinear_arith)
            requires
                r >= 1,
                a >= 0,
        ;
    } else {
        assert(s.take(k) == s);
    }
}

/// The characters of `s`, one by one.
pub fn chars_of(s: &str) -> (v: Vec<char>)
    ensures
        v@ == s@,
{
    let n = s.unicode_len();
    let mut v: Vec<char> = Vec::new();
    let mut i: usize = 0;
    while i < n
        invariant
            n == s@.len(),
            i <= n,
            v@ == s@.subrange(0, i as int),
        decreases n - i,
    {
        v.push(s.get_char(i));
        i = i + 1;
    }
    v
}

/// `String::push`: appends one character.
#[verifier::external_body]
pub(crate) fn string_push(s: &mut String, c: char)
    ensures
        final(s)@ == old(s)@.push(c),
{
    s.push(c);
}

/// A `String` holding exactly the characters of `v`.
pub fn string_of(v: &Vec<char>) -> (s: String)
    ensures
        s@ == v@,
{
    let mut s = String::new();
    let mut i: usize = 0;
    while i < v.len()
        invariant
            i <= v.len(),
            s@ == v@.subrange(0, i as int),
        decreases v.len() - i,
    {
        string_push(&mut s, v[i]);
        i = i + 1;
    }
    s
}

/// The characters `v[lo..hi]`.
pub fn sub_chars(v: &Vec<char>, lo: usize, hi: usize) -> (r: Vec<char>)
    requires
        lo <= hi <= v.len(),
    ensures
        r@ == v@.subrange(lo as int, hi as int),
{
    let mut r: Vec<char> = Vec::new();
    let mut i = lo;
    while i < hi
        invariant
            lo <= i <= hi <= v.len(),
            r@ == v@.subrange(lo as int, i as int),
        decreases hi - i,
    {
        r.push(v[i]);
        i = i + 1;
    }
    r
}

pub fn contains_char(seps: &[char], c: char) -> (b: bool)
    ensures
        b == seps@.contains(c),
{
    let mut i: usize = 0;
    while i < seps.len()
        invariant
            i <= seps.len(),
            forall|j: int| 0 <= j < i ==> seps@[j] != c,
        decreases seps.len() - i,
    {
        if seps[i] == c {
            return true;
        }
        i = i + 1;
    }
    false
}

/// Whether `p` is a prefix of `v`.
pub fn starts_with(v: &Vec<char>, p: &[char]) -> (b: bool)
    ensures
        b == p@.is_prefix_of(v@),
{
    if p.len() > v.len() {
        return false;
    }
    let mut i: usize = 0;
    while i < p.len()
        invariant
            p.len() <= v.len(),
            i <= p.len(),
            forall|j: int| 0 <= j < i ==> p@[j] == v@[j],
        decreases p.len() - i,
    {
        if p[i] != v[i] {
            return false;
        }
        i = i + 1;
    }
    assert(v@.subrange(0, p@.len() as int) =~= p@);
    true
}

/// `str::trim`.
pub fn trim_chars(v: &Vec<char>) -> (r: Vec<char>)
    ensures
        r@ == trim(v@),
{
    let n = v.len();
    let mut a: usize = 0;
    while a < n && char_is_space(v[a])
        invariant
            n == v.len(),
            a <= n,
            forall|i: int| 0 <= i < a ==> is_space(#[trigger] v@[i]),
        decreases n - a,
    {
        a = a + 1;
    }
    proof {
        lemma_leading_spaces(v@, a as int);
    }
    let mut b: usize = n;
    while b > a && char_is_space(v[b - 1])
        invariant
            n == v.len(),
            a <= b <= n,
            forall|i: int| b <= i < n ==> is_space(#[trigger] v@[i]),
        decreases b,
    {
        b = b - 1;
    }
    proof {
        let t = v@.skip(a as int);
        assert forall|i: int| t.len() - (n - b) <= i < t.len() implies is_space(#[trigger] t[i]) by {
            assert(t[i] == v@[i + a]);
        }
        if n - b < t.len() {
            assert(t[t.len() - (n - b) - 1] == v@[b - 1]);
        }
        lemma_trailing_spaces(t, (n - b) as int);
        assert(t.take(t.len() - (n - b)) =~= v@.subrange(a as int, b as int));
    }
    sub_chars(v, a, b)
}

pub open spec fn views(r: Seq<Vec<char>>) -> Seq<Seq<char>> {
    r.map_values(|x: Vec<char>| x@)
}

/// `s.split(|c| seps.contains(c))`.
pub fn split_chars(v: &Vec<char>, seps: &[char]) -> (r: Vec<Vec<char>>)
    ensures
        views(r@) == split_on(v@, seps@),
{
    let mut pieces: Vec<Vec<char>> = Vec::new();
    let mut cur: Vec<char> = Vec::new();
    let mut i: usize = 0;
    while i < v.len()
        invariant
            i <= v.len(),
            views(pieces@).push(cur@) == split_on(v@.take(i as int), seps@),
        decreases v.len() - i,
    {
        let c = v[i];
        proof {
            let s = v@.take(i + 1);
            assert(s.drop_last() =~= v@.take(i as int));
            assert(s.last() == c);
        }
        let ghost prev_pieces = pieces@;
        let ghost prev_cur = cur@;
        if contains_char(seps, c) {
            let done = cur;
            pieces.push(done);
            cur = Vec::new();
            assert(views(pieces@) =~= views(prev_pieces).push(prev_cur));
        } else {
            cur.push(c);
            assert(views(pieces@).push(cur@) =~= views(prev_pieces).push(prev_cur).update(
                views(prev_pieces).len() as int,
                prev_cur.push(c),
            ));
        }
        i = i + 1;
    }
    pieces.push(cur);
    assert(v@.take(v.len() as int) =~= v@);
    assert(views(pieces@) =~= split_on(v@, seps@));
    pieces
}

/// The value of digit `c`, if it is one.
pub fn char_digit(c: char, hex: bool) -> (r: Option<u64>)
    ensures
        match r {
            Some(d) => digit_value(c, hex) == Some(d as nat) && d < radix(hex),
            None => digit_value(c, hex) is None,
        },
{
    if '0' <= c && c <= '9' {
        Some(((c as u32) - ('0' as u32)) as u64)
    } else if hex && 'a' <= c && c <= 'f' {
        Some(((c as u32) - ('a' as u32) + 10) as u64)
    } else if hex && 'A' <= c && c <= 'F' {
        Some(((c as u32) - ('A' as u32) + 10) as u64)
    } else {
        None
    }
}

/// The value of the digit string `v[lo..hi]`, when every character is a
/// digit and the value is at most `max`.
pub fn digits_up_to(v: &Vec<char>, lo: usize, hi: usize, hex: bool, max: u64) -> (r: Option<u64>)
    requires
        lo <= hi <= v.len(),
    ensures
        ({
            let d = v@.subrange(lo as int, hi as int);
            match r {
                Some(x) => all_digits(d, hex) && digits_value(d, hex) <= max && x == digits_value(
                    d,
                    hex,
                ),
                None => !(all_digits(d, hex) && digits_value(d, hex) <= max),
            }
        }),
{
    let ghost whole = v@.subrange(lo as int, hi as int);
    let r: u64 = if hex {
        16
    } else {
        10
    };
    let mut acc: u64 = 0;
    let mut i = lo;
    while i < hi
        invariant
            lo <= i <= hi <= v.len(),
            r == radix(hex),
            whole == v@.subrange(lo as int, hi as int),
            all_digits(v@.subrange(lo as int, i as int), hex),
            acc == digits_value(v@.subrange(lo as int, i as int), hex),
            acc <= max,
        decreases hi - i,
    {
        let c = v[i];
        let ghost cur = v@.subrange(lo as int, i + 1);
        assert(cur.drop_last() =~= v@.subrange(lo as int, i as int));
        assert(cur.last() == c);
        assert(whole[i - lo] == c);
        match char_digit(c, hex) {
            None => {
                return None;
            },
            Some(d) => {
                if d > max || acc > (max - d) / r {
                    proof {
                        assert(acc * r + d > max) by (nonlinear_arith)
                            requires
                                d > max || acc > (max - d) as int / r as int,
                                r > 0,
                                acc >= 0,
                        ;
                        assert(whole.take(i + 1 - lo) =~= cur);
                        lemma_digits_prefix_le(whole, hex, i + 1 - lo);
                    }
                    return None;
                }
                proof {
                    assert(acc * r + d <= max) by (nonlinear_arith)
                        requires
                            d <= max,
                            acc <= (max - d) as int / r as int,
                            r > 0,
                    ;
                }
                acc = acc * r + d;
                proof {
                    assert forall|j: int| 0 <= j < cur.len() implies (#[trigger] digit_value(
                        cur[j],
                        hex,
                    )) is Some by {
                        if j < cur.len() - 1 {
                            assert(cur[j] == v@.subrange(lo as int, i as int)[j]);
                        }
                    }
                }
            },
        }
        i = i + 1;
    }
    Some(acc)
}

/// `from_str_radix` into an unsigned type whose maximum is `max`.
pub fn parse_unsigned_chars(v: &Vec<char>, hex: bool, max: u64) -> (r: Option<u64>)
    ensures
        match r {
            Some(x) => parse_unsigned(v@, hex, max as nat) == Some(x as nat),
            None => parse_unsigned(v@, hex, max as nat) is None,
        },
{
    let n = v.len();
    if n == 0 || (n == 1 && (v[0] == '+' || v[0] == '-')) {
        return None;
    }
    let lo: usize = if v[0] == '+' {
        1
    } else {
        0
    };
    proof {
        if lo == 1 {
            assert(v@.subrange(1, n as int) =~= v@.drop_first());
        } else {
            assert(v@.subrange(0, n as int) =~= v@);
        }
    }
    digits_up_to(v, lo, n, hex, max)
}

/// `str::parse::<i32>`.
pub fn parse_i32_chars(v: &Vec<char>) -> (r: Option<i32>)
    ensures
        match r {
            Some(x) => parse_i32_spec(v@) == Some(x as int),
            None => parse_i32_spec(v@) is None,
        },
{
    let n = v.len();
    if n == 0 || (n == 1 && (v[0] == '+' || v[0] == '-')) {
        return None;
    }
    if v[0] == '-' {
        assert(v@.subrange(1, n as int) =~= v@.drop_first());
        match digits_up_to(v, 1, n, false, 0x8000_0000) {
            Some(m) => {
                if m == 0x8000_0000 {
                    Some(i32::MIN)
                } else {
                    Some(-(m as i32))
                }
            },
            None => None,
        }
    } else {
        match parse_unsigned_chars(v, false, 0x7fff_ffff) {
            Some(m) => Some(m as i32),
            None => None,
        }
    }
}

/// `str::parse::<u8>`.
pub fn parse_u8_chars(v: &Vec<char>) -> (r: Option<u8>)
    ensures
        match r {
            Some(x) => parse_unsigned(v@, false, u8::MAX as nat) == Some(x as nat),
            None => parse_unsigned(v@, false, u8::MAX as nat) is None,
        },
{
    match parse_unsigned_chars(v, false, u8::MAX as u64) {
        Some(m) => Some(m as u8),
        None => None,
    }
}

/// `str::parse::<usize>`.
pub fn parse_usize_chars(v: &Vec<char>) -> (r: Option<usize>)
    ensures
        match r {
            Some(x) => parse_unsigned(v@, false, usize::MAX as nat) == Some(x as nat),
            None => parse_unsigned(v@, false, usize::MAX as nat) is None,
        },
{
    match parse_unsigned_chars(v, false, usize::MAX as u64) {
        Some(m) => Some(m as usize),
        None => None,
    }
}

/// `str::parse::<u32>` (or `u32::from_str_radix(_, 16)` when `hex`).
pub fn parse_u32_chars(v: &Vec<char>, hex: bool) -> (r: Option<u32>)
    ensures
        match r {
            Some(x) => parse_unsigned(v@, hex, u32::MAX as nat) == Some(x as nat),
            None => parse_unsigned(v@, hex, u32::MAX as nat) is None,
        },
{
    match parse_unsigned_chars(v, hex, u32::MAX as u64) {
        Some(m) => Some(m as u32),
        None => None,
    }
}

/// Index of the first `c` in `s`, if `s` holds one (`str::find`).
pub open spec fn first_index(s: Seq<char>, c: char) -> Option<nat>
    decreases s.len(),
{
    if s.len() == 0 {
        None
    } else if s[0] == c {
        Some(0)
    } else {
        match first_index(s.drop_first(), c) {
            Some(i) => Some(i + 1),
            None => None,
        }
    }
}

pub proof fn lemma_first_index(s: Seq<char>, c: char, k: int)
    requires
        0 <= k <= s.len(),
        forall|j: int| 0 <= j < k ==> s[j] != c,
        k == s.len() || s[k] == c,
    ensures
        k == s.len() ==> first_index(s, c) is None && !s.contains(c),
        k < s.len() ==> first_index(s, c) == Some(k as nat),
    decreases k,
{
    if k > 0 {
        lemma_first_index(s.drop_first(), c, k - 1);
        if k == s.len() {
            assert forall|j: int| 0 <= j < s.len() implies s[j] != c by {
                if j > 0 {
                    assert(s[j] == s.drop_first()[j - 1]);
                }
            }
        }
    }
}

/// Index of the first occurrence of `c` in `v` (`str::find`).
pub fn find_char(v: &Vec<char>, c: char) -> (r: Option<usize>)
    ensures
        match r {
            Some(i) => first_index(v@, c) == Some(i as nat) && i < v.len() && v@[i as int] == c,
            None => first_index(v@, c) is None && !v@.contains(c),
        },
{
    let mut i: usize = 0;
    while i < v.len()
        invariant
            i <= v.len(),
            forall|j: int| 0 <= j < i ==> v@[j] != c,
        decreases v.len() - i,
    {
        if v[i] == c {
            proof {
                lemma_first_index(v@, c, i as int);
            }
            return Some(i);
        }
        i = i + 1;
    }
    proof {
        lemma_first_index(v@, c, i as int);
    }
    None
}

pub open spec fn hex_digits() -> Seq<char> {
    seq!['0', '1', '2', '3', '4', '5', '6', '7', '8', '9', 'a', 'b', 'c', 'd', 'e', 'f']
}

/// `format!("{:x}", n)`: lower-case hexadecimal without leading zeros.
pub open spec fn hex_of(n: nat) -> Seq<char>
    decreases n,
{
    if n < 16 {
        seq![hex_digits()[n as int]]
    } else {
        hex_of(n / 16).push(hex_digits()[(n % 16) as int])
    }
}

/// `n.to_string()`: decimal without leading zeros.
pub open spec fn decimal_of(n: nat) -> Seq<char>
    decreases n,
{
    if n < 10 {
        seq![hex_digits()[n as int]]
    } else {
        decimal_of(n / 10).push(hex_digits()[(n % 10) as int])
    }
}


pub open spec fn hex_digits_upper() -> Seq<char> {
    seq!['0', '1', '2', '3', '4', '5', '6', '7', '8', '9', 'A', 'B', 'C', 'D', 'E', 'F']
}

/// `format!("{:X}", n)`: upper-case hexadecimal without leading zeros.
pub open spec fn hex_upper_of(n: nat) -> Seq<char>
    decreases n,
{
    if n < 16 {
        seq![hex_digits_upper()[n as int]]
    } else {
        hex_upper_of(n / 16).push(hex_digits_upper()[(n % 16) as int])
    }
}

/// Each entry of the digit tables is the digit of its own index.
pub proof fn lemma_digit_table(d: int)
    requires
        0 <= d < 16,
    ensures
        digit_value(hex_digits()[d], true) == Some(d as nat),
        digit_value(hex_digits_upper()[d], true) == Some(d as nat),
        d < 10 ==> digit_value(hex_digits()[d], false) == Some(d as nat),
{
    if d == 0 {
    } else if d == 1 {
    } else if d == 2 {
    } else if d == 3 {
    } else if d == 4 {
    } else if d == 5 {
    } else if d == 6 {
    } else if d == 7 {
    } else if d == 8 {
    } else if d == 9 {
    } else if d == 10 {
    } else if d == 11 {
    } else if d == 12 {
    } else if d == 13 {
    } else if d == 14 {
    } else {
    }
}

/// Decimal text is a non-empty digit string worth its number.
pub proof fn lemma_decimal_of(n: nat)
    ensures
        decimal_of(n).len() >= 1,
        all_digits(decimal_of(n), false),
        digits_value(decimal_of(n), false) == n,
    decreases n,
{
    let s = decimal_of(n);
    if n < 10 {
        lemma_digit_table(n as int);
        assert(s.drop_last() =~= Seq::<char>::empty());
        assert(digits_value(s.drop_last(), false) == 0);
    } else {
        lemma_decimal_of(n / 10);
        vstd::arithmetic::div_mod::lemma_fundamental_div_mod(n as int, 10);
        lemma_digit_table((n % 10) as int);
        assert(s.drop_last() =~= decimal_of(n / 10));
        assert forall|i: int| 0 <= i < s.len() implies (#[trigger] digit_value(s[i], false)) is Some by {
            if i < s.len() - 1 {
                assert(s[i] == decimal_of(n / 10)[i]);
            }
        }
    }
}

/// Lower-case hexadecimal text is a non-empty hex digit string worth its number.
pub proof fn lemma_hex_of(n: nat)
    ensures
        hex_of(n).len() >= 1,
        all_digits(hex_of(n), true),
        digits_value(hex_of(n), true) == n,
    decreases n,
{
    let s = hex_of(n);
    if n < 16 {
        lemma_digit_table(n as int);
        assert(s.drop_last() =~= Seq::<char>::empty());
        assert(digits_value(s.drop_last(), true) == 0);
    } else {
        lemma_hex_of(n / 16);
        vstd::arithmetic::div_mod::lemma_fundamental_div_mod(n as int, 16);
        lemma_digit_table((n % 16) as int);
        assert(s.drop_last() =~= hex_of(n / 16));
        assert forall|i: int| 0 <= i < s.len() implies (#[trigger] digit_value(s[i], true)) is Some by {
            if i < s.len() - 1 {
                assert(s[i] == hex_of(n / 16)[i]);
            }
        }
    }
}

/// Upper-case hexadecimal text is a non-empty hex digit string worth its number.
pub proof fn lemma_hex_upper_of(n: nat)
    ensures
        hex_upper_of(n).len() >= 1,
        all_digits(hex_upper_of(n), true),
        digits_value(hex_upper_of(n), true) == n,
    decreases n,
{
    let s = hex_upper_of(n);
    if n < 16 {
        lemma_digit_table(n as int);
        assert(s.drop_last() =~= Seq::<char>::empty());
        assert(digits_value(s.drop_last(), true) == 0);
    } else {
        lemma_hex_upper_of(n / 16);
        vstd::arithmetic::div_mod::lemma_fundamental_div_mod(n as int, 16);
        lemma_digit_table((n % 16) as int);
        assert(s.drop_last() =~= hex_upper_of(n / 16));
        assert forall|i: int| 0 <= i < s.len() implies (#[trigger] digit_value(s[i], true)) is Some by {
            if i < s.len() - 1 {
                assert(s[i] == hex_upper_of(n / 16)[i]);
            }
        }
    }
}

/// A digit string has no whitespace to trim.
pub proof fn lemma_trim_digits(s: Seq<char>, hex: bool)
    requires
        all_digits(s, hex),
    ensures
        trim(s) == s,
{
    if s.len() > 0 {
        assert(digit_value(s[0], hex) is Some);
        assert(digit_value(s[s.len() - 1], hex) is Some);
    }
    lemma_leading_spaces(s, 0);
    lemma_trailing_spaces(s, 0);
    assert(s.skip(0) =~= s);
    assert(s.take(s.len() as int) =~= s);
}

/// A digit character is an ASCII digit or letter `a`-`f` / `A`-`F`, so it is
/// neither whitespace nor any of the separators the parsers split on.
pub proof fn lemma_digit_char(c: char, hex: bool)
    requires
        digit_value(c, hex) is Some,
    ensures
        ('0' <= c <= '9') || ('a' <= c <= 'f') || ('A' <= c <= 'F'),
        !is_space(c),
        c != ',' && c != ':' && c != '+' && c != '-' && c != 'x',
{
}

/// Text that starts and ends with a non-space is its own trim.
pub proof fn lemma_trim_unchanged(s: Seq<char>)
    requires
        s.len() > 0,
        !is_space(s[0]),
        !is_space(s[s.len() - 1]),
    ensures
        trim(s) == s,
{
    lemma_leading_spaces(s, 0);
    lemma_trailing_spaces(s, 0);
    assert(s.skip(0) =~= s);
    assert(s.take(s.len() as int) =~= s);
}

/// Splitting text that holds no separator `c` gives the text as one piece.
pub proof fn lemma_split_without_sep(s: Seq<char>, c: char)
    requires
        forall|i: int| 0 <= i < s.len() ==> #[trigger] s[i] != c,
    ensures
        split_on(s, seq![c]) == seq![s],
    decreases s.len(),
{
    if s.len() > 0 {
        let t = s.drop_last();
        assert forall|i: int| 0 <= i < t.len() implies #[trigger] t[i] != c by {
            assert(t[i] == s[i]);
        }
        lemma_split_without_sep(t, c);
        assert(s[s.len() - 1] != c);
        assert(!seq![c].contains(s.last())) by {
            if seq![c].contains(s.last()) {
                let j = choose|j: int| 0 <= j < 1 && seq![c][j] == s.last();
                assert(j == 0);
            }
        }
        assert(t.push(s.last()) =~= s);
    } else {
        assert(s =~= Seq::<char>::empty());
    }
}

/// The lower-case hex text of `n` parses back to `n` under any bound at least `n`.
pub proof fn lemma_parse_hex_of(n: nat, max: nat)
    requires
        n <= max,
    ensures
        parse_unsigned(hex_of(n), true, max) == Some(n),
{
    lemma_hex_of(n);
    lemma_digit_char(hex_of(n)[0], true);
}

/// The decimal text of `n` parses back to `n` under any bound at least `n`.
pub proof fn lemma_parse_decimal_of(n: nat, max: nat)
    requires
        n <= max,
    ensures
        parse_unsigned(decimal_of(n), false, max) == Some(n),
{
    lemma_decimal_of(n);
    lemma_digit_char(decimal_of(n)[0], false);
}

/// Splitting `a`, separator `c`, `b` on `c` gives the pieces of `a` followed
/// by the pieces of `b`.
pub proof fn lemma_split_join_on(a: Seq<char>, b: Seq<char>, c: char)
    ensures
        split_on(a + seq![c] + b, seq![c]) == split_on(a, seq![c]) + split_on(b, seq![c]),
    decreases b.len(),
{
    let seps = seq![c];
    assert(seps.contains(c)) by {
        assert(seps[0] == c);
    }
    if b.len() == 0 {
        let s = a + seq![c];
        assert(a + seq![c] + b =~= s);
        assert(s.drop_last() =~= a);
        assert(split_on(a, seps).push(Seq::empty()) =~= split_on(a, seps) + seq![Seq::<char>::empty()]);
    } else {
        let b2 = b.drop_last();
        let l = b.last();
        lemma_split_join_on(a, b2, c);
        let s = a + seq![c] + b;
        assert(s.drop_last() =~= a + seq![c] + b2);
        assert(s.last() == l);
        let x = split_on(a, seps);
        let y = split_on(b2, seps);
        lemma_split_nonempty(b2, seps);
        if seps.contains(l) {
            assert((x + y).push(Seq::empty()) =~= x + y.push(Seq::empty()));
        } else {
            let xy = x + y;
            assert(xy.last() == y.last());
            assert(xy.update(xy.len() - 1, xy.last().push(l)) =~= x + y.update(
                y.len() - 1,
                y.last().push(l),
            ));
        }
    }
}

} // verus!
