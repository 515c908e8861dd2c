//! Small utilities: integer clamping, decimal and hex scanning, geometry
//! strings, bit strings and comma-separated lists.

use vstd::prelude::*;
use crate::text::{
    decimal_of, hex_of, hex_upper_of, lemma_decimal_of, lemma_hex_of, lemma_hex_upper_of,
    lemma_trim_digits, lemma_leading_spaces, lemma_trailing_spaces, all_digits, digit_value,
    chars_of, parse_i32_chars, parse_i32_spec, parse_unsigned, parse_unsigned_chars, split_chars,
    split_on, string_of, sub_chars, trim, trim_chars, views, first_index, find_char,
};

verus! {

/// `i` clamped into `0..n`: below 0 gives 0, `n` or above gives `n - 1`.
pub open spec fn clamp_index(i: int, n: int) -> int {
    if i < 0 {
        0
    } else if i >= n {
        n - 1
    } else {
        i
    }
}

/// Clamp `i` into `0..n`: below 0 gives 0, `n` or above gives `n - 1`.
pub fn nfix(i: i32, n: i32) -> (r: i32)
    requires
        i < 0 || i < n || n > i32::MIN,
    ensures
        r == clamp_index(i as int, n as int),
{
    if i < 0 {
        0
    } else if i >= n {
        n - 1
    } else {
        i
    }
}

/// For a positive bound the clamped index always lies in `0..n`.
pub proof fn law_clamp_in_range(i: int, n: int)
    requires
        n > 0,
    ensures
        0 <= clamp_index(i, n) < n,
        0 <= i < n ==> clamp_index(i, n) == i,
{
}

pub fn nmin(n: i32, m: i32) -> (r: i32)
    ensures
        r == if n < m {
            n
        } else {
            m
        },
{
    if n < m {
        n
    } else {
        m
    }
}

pub fn nmax(n: i32, m: i32) -> (r: i32)
    ensures
        r == if n > m {
            n
        } else {
            m
        },
{
    if n > m {
        n
    } else {
        m
    }
}

pub fn nabs(n: i32) -> (r: i32)
    requires
        n != i32::MIN,
    ensures
        r == if n < 0 {
            -n
        } else {
            n as int
        },
{
    if n < 0 {
        -n
    } else {
        n
    }
}

pub open spec fn is_ascii_digit(c: char) -> bool {
    '0' <= c && c <= '9'
}

/// An optional leading `-` (or a digit), then only digits; `-` alone counts.
pub open spec fn decimal_text(s: Seq<char>) -> bool {
    &&& s.len() > 0
    &&& (s[0] == '-' || is_ascii_digit(s[0]))
    &&& forall|i: int| 1 <= i < s.len() ==> is_ascii_digit(#[trigger] s[i])
}

pub fn is_decimal(s: &str) -> (b: bool)
    ensures
        b == decimal_text(s@),
{
    let v = chars_of(s);
    if v.len() == 0 {
        return false;
    }
    let c = v[0];
    if c != '-' && !('0' <= c && c <= '9') {
        return false;
    }
    let mut i: usize = 1;
    while i < v.len()
        invariant
            1 <= i <= v.len(),
            v@ == s@,
            forall|j: int| 1 <= j < i ==> is_ascii_digit(#[trigger] v@[j]),
        decreases v.len() - i,
    {
        let d = v[i];
        if !('0' <= d && d <= '9') {
            return false;
        }
        i = i + 1;
    }
    true
}

/// `s` trimmed, read as `0x`/`0X` hexadecimal or else as decimal `u64`.
pub open spec fn hexdec_value(s: Seq<char>) -> Option<nat> {
    let t = trim(s);
    if t.len() >= 2 && t[0] == '0' && (t[1] == 'x' || t[1] == 'X') {
        parse_unsigned(t.skip(2), true, u64::MAX as nat)
    } else {
        parse_unsigned(t, false, u64::MAX as nat)
    }
}

pub fn scan_hexdec(s: &str) -> (r: Option<u64>)
    ensures
        match r {
            Some(v) => hexdec_value(s@) == Some(v as nat),
            None => hexdec_value(s@) is None,
        },
{
    let raw = chars_of(s);
    let t = trim_chars(&raw);
    if t.len() >= 2 && t[0] == '0' && (t[1] == 'x' || t[1] == 'X') {
        let rest = sub_chars(&t, 2, t.len());
        assert(rest@ =~= t@.skip(2));
        parse_unsigned_chars(&rest, true, u64::MAX)
    } else {
        parse_unsigned_chars(&t, false, u64::MAX)
    }
}

/// `scan_hexdec` reads back every `u64` from its decimal text, from its
/// lower-case `0x` text with blanks around it, and from its upper-case `0X` text.
pub proof fn law_scan_hexdec_reads_back(n: u64)
    ensures
        hexdec_value(decimal_of(n as nat)) == Some(n as nat),
        hexdec_value(seq![' ', '0', 'x'] + hex_of(n as nat) + seq![' ']) == Some(n as nat),
        hexdec_value(seq!['0', 'X'] + hex_upper_of(n as nat)) == Some(n as nat),
{
    let d = decimal_of(n as nat);
    lemma_decimal_of(n as nat);
    lemma_trim_digits(d, false);
    assert(digit_value(d[0], false) is Some);
    if d.len() >= 2 {
        assert(digit_value(d[1], false) is Some);
    }

    let h = hex_of(n as nat);
    lemma_hex_of(n as nat);
    let s = seq![' ', '0', 'x'] + h + seq![' '];
    assert(s[0] == ' ' && s[1] == '0');
    lemma_leading_spaces(s, 1);
    let t1 = s.skip(1);
    assert(t1 =~= seq!['0', 'x'] + h + seq![' ']);
    assert(digit_value(h[h.len() - 1], true) is Some);
    assert(t1[t1.len() - 2] == h[h.len() - 1]);
    lemma_trailing_spaces(t1, 1);
    let t = t1.take(t1.len() - 1);
    assert(t =~= seq!['0', 'x'] + h);
    assert(t.skip(2) =~= h);
    assert(digit_value(h[0], true) is Some);

    let u = hex_upper_of(n as nat);
    lemma_hex_upper_of(n as nat);
    let v = seq!['0', 'X'] + u;
    assert(digit_value(u[0], true) is Some);
    assert(digit_value(u[u.len() - 1], true) is Some);
    assert(v[v.len() - 1] == u[u.len() - 1]);
    lemma_leading_spaces(v, 0);
    lemma_trailing_spaces(v, 0);
    assert(v.skip(0) =~= v);
    assert(v.take(v.len() as int) =~= v);
    assert(v.skip(2) =~= u);
}

/// End of the run of ASCII digits in `s` that starts at `start`.
pub open spec fn digit_run_end(s: Seq<char>, start: int) -> int
    decreases s.len() - start,
{
    if 0 <= start < s.len() && is_ascii_digit(s[start]) {
        digit_run_end(s, start + 1)
    } else {
        start
    }
}

/// The pieces of a `WxH{+-}X{+-}Y` geometry: width, height, the two signs
/// and the two offsets, when `s` has that form and each number fits an `i32`.
pub open spec fn geom_fields(s: Seq<char>) -> Option<(int, int, char, int, char, int)> {
    match first_index(s, 'x') {
        None => None,
        Some(xi) => {
            let w = parse_i32_spec(s.take(xi as int));
            let rest = s.skip(xi + 1 as int);
            let hend = digit_run_end(rest, 0);
            let rem = rest.skip(hend);
            let h = parse_i32_spec(rest.take(hend));
            if w is None || hend == 0 || h is None || rem.len() < 2 {
                None
            } else {
                let e1 = digit_run_end(rem, 1);
                if (rem[0] != '+' && rem[0] != '-') || e1 == 1 || e1 >= rem.len() {
                    None
                } else {
                    let e2 = digit_run_end(rem, e1 + 1);
                    let x = parse_i32_spec(rem.subrange(1, e1));
                    let y = parse_i32_spec(rem.subrange(e1 + 1, e2));
                    if (rem[e1] != '+' && rem[e1] != '-') || e2 == e1 + 1 || e2 != rem.len()
                        || x is None || y is None {
                        None
                    } else {
                        Some((w->0, h->0, rem[0], x->0, rem[e1], y->0))
                    }
                }
            }
        },
    }
}

pub open spec fn fits_i32(v: int) -> bool {
    i32::MIN <= v <= i32::MAX
}

/// The arithmetic of a `-` offset (measured from the far edge) stays in `i32`.
pub open spec fn geom_in_range(s: Seq<char>, total_w: i32, total_h: i32) -> bool {
    match geom_fields(s) {
        Some((w, h, sx, x, sy, y)) => (sx == '-' ==> fits_i32(total_w - x) && fits_i32(
            total_w - x - w,
        )) && (sy == '-' ==> fits_i32(total_h - y) && fits_i32(total_h - y - h)),
        None => true,
    }
}

/// `(w, h, x, y)` of a geometry string, where a `-` offset is measured from
/// the right (bottom) edge of a `total_w` by `total_h` area.
pub open spec fn geom_value(s: Seq<char>, total_w: i32, total_h: i32) -> Option<(int, int, int, int)> {
    match geom_fields(s) {
        Some((w, h, sx, x, sy, y)) => Some(
            (
                w,
                h,
                if sx == '-' {
                    total_w - x - w
                } else {
                    x
                },
                if sy == '-' {
                    total_h - y - h
                } else {
                    y
                },
            ),
        ),
        None => None,
    }
}

fn digit_run(v: &Vec<char>, start: usize) -> (e: usize)
    requires
        start <= v.len(),
    ensures
        e == digit_run_end(v@, start as int),
        start <= e <= v.len(),
{
    let mut e = start;
    while e < v.len() && '0' <= v[e] && v[e] <= '9'
        invariant
            start <= e <= v.len(),
            digit_run_end(v@, e as int) == digit_run_end(v@, start as int),
        decreases v.len() - e,
    {
        e = e + 1;
    }
    e
}

/// The pieces of a geometry string, as `geom_fields` gives them.
fn geom_parts(s: &str) -> (r: Option<(i32, i32, char, i32, char, i32)>)
    ensures
        match r {
            Some((w, h, sx, x, sy, y)) => geom_fields(s@) == Some(
                (w as int, h as int, sx, x as int, sy, y as int),
            ),
            None => geom_fields(s@) is None,
        },
{
    let v = chars_of(s);
    let xi = match find_char(&v, 'x') {
        Some(i) => i,
        None => return None,
    };
    let w_part = sub_chars(&v, 0, xi);
    let rest = sub_chars(&v, xi + 1, v.len());
    assert(w_part@ =~= v@.take(xi as int));
    assert(rest@ =~= v@.skip(xi + 1));
    let parsed_w = match parse_i32_chars(&w_part) {
        Some(w) => w,
        None => return None,
    };
    let hend = digit_run(&rest, 0);
    if hend == 0 {
        return None;
    }
    let h_part = sub_chars(&rest, 0, hend);
    assert(h_part@ =~= rest@.take(hend as int));
    let parsed_h = match parse_i32_chars(&h_part) {
        Some(h) => h,
        None => return None,
    };
    let rem = sub_chars(&rest, hend, rest.len());
    assert(rem@ =~= rest@.skip(hend as int));
    if rem.len() < 2 {
        return None;
    }
    let sign1 = rem[0];
    if sign1 != '+' && sign1 != '-' {
        return None;
    }
    let e1 = digit_run(&rem, 1);
    if e1 == 1 || e1 >= rem.len() {
        return None;
    }
    let sign2 = rem[e1];
    if sign2 != '+' && sign2 != '-' {
        return None;
    }
    let e2 = digit_run(&rem, e1 + 1);
    if e2 == e1 + 1 || e2 != rem.len() {
        return None;
    }
    let num1 = sub_chars(&rem, 1, e1);
    let num2 = sub_chars(&rem, e1 + 1, e2);
    let nx = match parse_i32_chars(&num1) {
        Some(x) => x,
        None => return None,
    };
    let ny = match parse_i32_chars(&num2) {
        Some(y) => y,
        None => return None,
    };
    Some((parsed_w, parsed_h, sign1, nx, sign2, ny))
}

/// Parse `WxH{+-}X{+-}Y` into `(w, h, x, y)`; a `-` offset is measured from
/// the right (bottom) edge of a `total_w` by `total_h` area.
pub fn parse_geom(s: &str, total_w: i32, total_h: i32) -> (r: Option<(i32, i32, i32, i32)>)
    requires
        geom_in_range(s@, total_w, total_h),
    ensures
        match r {
            Some((w, h, x, y)) => geom_value(s@, total_w, total_h) == Some(
                (w as int, h as int, x as int, y as int),
            ),
            None => geom_value(s@, total_w, total_h) is None,
        },
{
    let (w, h, sx, x, sy, y) = match geom_parts(s) {
        Some(p) => p,
        None => return None,
    };
    let nx = if sx == '-' {
        total_w - x - w
    } else {
        x
    };
    let ny = if sy == '-' {
        total_h - y - h
    } else {
        y
    };
    Some((w, h, nx, ny))
}

/// `parse_geom` for any input: `None` also where a `-` offset measured from
/// the far edge would leave the `i32` range.
pub fn parse_geom_checked(s: &str, total_w: i32, total_h: i32) -> (r: Option<(i32, i32, i32, i32)>)
    ensures
        match r {
            Some((w, h, x, y)) => geom_in_range(s@, total_w, total_h) && geom_value(
                s@,
                total_w,
                total_h,
            ) == Some((w as int, h as int, x as int, y as int)),
            None => geom_value(s@, total_w, total_h) is None || !geom_in_range(
                s@,
                total_w,
                total_h,
            ),
        },
{
    let (w, h, sx, x, sy, y) = match geom_parts(s) {
        Some(p) => p,
        None => return None,
    };
    let i32_min: i64 = -2147483648;
    let i32_max: i64 = 2147483647;
    if sx == '-' {
        let d: i64 = total_w as i64 - x as i64;
        if d < i32_min || d > i32_max || d - (w as i64) < i32_min || d - (w as i64) > i32_max {
            return None;
        }
    }
    if sy == '-' {
        let d: i64 = total_h as i64 - y as i64;
        if d < i32_min || d > i32_max || d - (h as i64) < i32_min || d - (h as i64) > i32_max {
            return None;
        }
    }
    parse_geom(s, total_w, total_h)
}

/// The `nb` low bits of `st`, most significant first, as `'0'`/`'1'`.
pub open spec fn bit_string(st: u32, nb: nat) -> Seq<char> {
    Seq::new(
        nb,
        |k: int|
            if st & (1u32 << ((nb - 1 - k) as u32)) != 0 {
                '1'
            } else {
                '0'
            },
    )
}

/// The number a string of `'0'`/`'1'` digits denotes in base 2 (any other
/// character counts as `0`).
pub open spec fn binary_value(s: Seq<char>) -> nat
    decreases s.len(),
{
    if s.len() == 0 {
        0
    } else {
        binary_value(s.drop_last()) * 2 + if s.last() == '1' {
            1nat
        } else {
            0nat
        }
    }
}

proof fn lemma_shift_step(st: u32, i: u32)
    requires
        i < 31,
    ensures
        (st >> i) as int == ((st >> (i + 1) as u32) as int) * 2 + if st & (1u32 << i) != 0 {
            1int
        } else {
            0int
        },
{
    assert((st >> i) == ((st >> ((i + 1) as u32)) << 1u32) | (st >> i & 1u32)) by (bit_vector)
        requires
            i < 31,
    ;
    assert((st & (1u32 << i) != 0) == ((st >> i & 1u32) == 1u32)) by (bit_vector)
        requires
            i < 31,
    ;
    assert(st >> ((i + 1) as u32) <= 0x7fff_ffff) by (bit_vector)
        requires
            i < 31,
    ;
    assert(((st >> ((i + 1) as u32)) << 1u32) == (st >> ((i + 1) as u32)) * 2) by (bit_vector)
        requires
            st >> ((i + 1) as u32) <= 0x7fff_ffff,
    ;
    assert((((st >> ((i + 1) as u32)) << 1u32) | (st >> i & 1u32)) == ((st >> ((i + 1) as u32))
        << 1u32) + (st >> i & 1u32)) by (bit_vector);
    assert((st >> i & 1u32) == 0u32 || (st >> i & 1u32) == 1u32) by (bit_vector);
}

proof fn lemma_bits_prefix(st: u32, k: int)
    requires
        1 <= k <= 32,
    ensures
        binary_value(bit_string(st, 32).take(k)) == (st >> ((32 - k) as u32)) as nat,
    decreases k,
{
    let b = bit_string(st, 32);
    let p = b.take(k);
    if k == 1 {
        assert(p.drop_last() =~= Seq::<char>::empty());
        assert(binary_value(p.drop_last()) == 0);
        assert((st >> 31u32) == (if st & (1u32 << 31u32) != 0 { 1u32 } else { 0u32 })) by (bit_vector);
    } else {
        lemma_bits_prefix(st, k - 1);
        assert(p.drop_last() =~= b.take(k - 1));
        lemma_shift_step(st, (32 - k) as u32);
    }
}

/// `bitprint` gives exactly `min(nbits, 32)` characters, each `'0'` or `'1'`;
/// a shorter print is the tail of the full 32-bit print; and the full print
/// read in base 2 is the number printed.
pub proof fn law_bitprint(st: u32, nb: nat)
    requires
        nb <= 32,
    ensures
        bit_string(st, nb).len() == nb,
        forall|k: int| 0 <= k < nb ==> #[trigger] bit_string(st, nb)[k] == '0' || bit_string(st, nb)[k] == '1',
        bit_string(st, nb) == bit_string(st, 32).skip(32 - nb),
        binary_value(bit_string(st, 32)) == st,
{
    assert(bit_string(st, nb) =~= bit_string(st, 32).skip(32 - nb));
    lemma_bits_prefix(st, 32);
    assert(bit_string(st, 32).take(32) =~= bit_string(st, 32));
    assert((st >> 0u32) == st) by (bit_vector);
}

/// The low `min(nbits, 32)` bits of `st`, most significant first.
pub fn bitprint(st: u32, nbits: usize) -> (out: String)
    ensures
        out@ == bit_string(
            st,
            if nbits < 32 {
                nbits as nat
            } else {
                32
            },
        ),
{
    let nb: usize = if nbits < 32 {
        nbits
    } else {
        32
    };
    let ghost target = bit_string(st, nb as nat);
    let mut out: Vec<char> = Vec::new();
    let mut i: usize = nb;
    while i > 0
        invariant
            i <= nb <= 32,
            target == bit_string(st, nb as nat),
            out@ == target.take(nb - i),
        decreases i,
    {
        i = i - 1;
        let c = if (st & (1u32 << (i as u32))) != 0 {
            '1'
        } else {
            '0'
        };
        out.push(c);
        assert(out@ =~= target.take(nb - i));
    }
    assert(target.take(nb as int) =~= target);
    string_of(&out)
}

/// Whether `needle` occurs in `hay` (`str::contains`).
pub open spec fn occurs_in(needle: Seq<char>, hay: Seq<char>) -> bool {
    exists|k: int| 0 <= k <= hay.len() - needle.len() && #[trigger] hay.subrange(k, k + needle.len()) == needle
}

fn contains_chars(hay: &Vec<char>, needle: &Vec<char>) -> (b: bool)
    ensures
        b == occurs_in(needle@, hay@),
{
    if needle.len() > hay.len() {
        return false;
    }
    let last = hay.len() - needle.len();
    let mut k: usize = 0;
    while k <= last
        invariant
            last == hay.len() - needle.len(),
            needle.len() <= hay.len(),
            k <= last + 1,
            forall|j: int| 0 <= j < k ==> #[trigger] hay@.subrange(j, j + needle.len()) != needle@,
        decreases last + 1 - k,
    {
        let mut i: usize = 0;
        let mut same = true;
        while i < needle.len()
            invariant
                k <= last,
                last == hay.len() - needle.len(),
                i <= needle.len(),
                same == forall|j: int| 0 <= j < i ==> hay@[k + j] == needle@[j],
            decreases needle.len() - i,
        {
            if hay[k + i] != needle[i] {
                same = false;
            }
            i = i + 1;
        }
        if same {
            assert(hay@.subrange(k as int, k + needle.len()) =~= needle@);
            return true;
        }
        assert(hay@.subrange(k as int, k + needle.len()) != needle@) by {
            let j = choose|j: int| 0 <= j < needle.len() && hay@[k + j] != needle@[j];
            assert(hay@.subrange(k as int, k + needle.len())[j] == hay@[k + j]);
        }
        k = k + 1;
    }
    false
}

/// `s` matches an entry of `list` that is `*` or occurs in `s`.
pub open spec fn matches_list(s: Seq<char>, list: Seq<Seq<char>>) -> bool {
    exists|i: int|
        0 <= i < list.len() && (#[trigger] list[i] == seq!['*'] || occurs_in(list[i], s))
}

pub fn match_str_list(s: &str, list: &[&str]) -> (b: bool)
    ensures
        b == matches_list(s@, list@.map_values(|t: &str| t@)),
{
    let ghost items = list@.map_values(|t: &str| t@);
    let hay = chars_of(s);
    let mut i: usize = 0;
    while i < list.len()
        invariant
            i <= list.len(),
            hay@ == s@,
            items == list@.map_values(|t: &str| t@),
            forall|j: int|
                0 <= j < i ==> !(#[trigger] items[j] == seq!['*'] || occurs_in(items[j], s@)),
        decreases list.len() - i,
    {
        let item = chars_of(list[i]);
        assert(items[i as int] == item@);
        let star = item.len() == 1 && item[0] == '*';
        assert(star == (item@ == seq!['*'])) by {
            if item@ == seq!['*'] {
                assert(item@.len() == 1);
            }
            if star {
                assert(item@ =~= seq!['*']);
            }
        }
        if star || contains_chars(&hay, &item) {
            return true;
        }
        i = i + 1;
    }
    false
}

/// Split `csv` at every `,` and trim each piece.
pub fn create_str_list(csv: &str) -> (out: Vec<String>)
    ensures
        out@.len() == split_on(csv@, seq![',']).len(),
        forall|i: int|
            0 <= i < out@.len() ==> (#[trigger] out@[i])@ == trim(split_on(csv@, seq![','])[i]),
{
    let v = chars_of(csv);
    let seps: &[char] = &[','];
    assert(seps@ =~= seq![',']);
    let pieces = split_chars(&v, seps);
    let ghost all = views(pieces@);
    let mut out: Vec<String> = Vec::new();
    let mut i: usize = 0;
    while i < pieces.len()
        invariant
            i <= pieces.len(),
            all == views(pieces@),
            all == split_on(csv@, seq![',']),
            out@.len() == i,
            forall|j: int| 0 <= j < i ==> (#[trigger] out@[j])@ == trim(all[j]),
        decreases pieces.len() - i,
    {
        let t = trim_chars(&pieces[i]);
        out.push(string_of(&t));
        i = i + 1;
    }
    out
}

/// The user name from `$USER`, else `$LOGNAME`, else `unknown-user`.
pub fn user_name_from(user: Option<String>, logname: Option<String>) -> (r: String)
    ensures
        r@ == match (user, logname) {
            (Some(u), _) => u@,
            (None, Some(l)) => l@,
            (None, None) => "unknown-user"@,
        },
{
    match user {
        Some(u) => u,
        None => match logname {
            Some(l) => l,
            None => "unknown-user".to_string(),
        },
    }
}

/// The home directory from `$HOME`, else `/`.
pub fn home_dir_from(home: Option<String>) -> (r: String)
    ensures
        r@ == match home {
            Some(h) => h@,
            None => "/"@,
        },
{
    match home {
        Some(h) => h,
        None => "/".to_string(),
    }
}

/// The shell from `$SHELL`, else `/bin/sh`.
pub fn shell_from(shell: Option<String>) -> (r: String)
    ensures
        r@ == match shell {
            Some(s) => s@,
            None => "/bin/sh"@,
        },
{
    match shell {
        Some(s) => s,
        None => "/bin/sh".to_string(),
    }
}

/// The host name: `$HOSTNAME` when it is set and not empty, else the name
/// that the system reports, if any.
pub fn host_from(env_host: Option<String>, system_host: Option<String>) -> (r: Option<String>)
    ensures
        r == match env_host {
            Some(h) if h@.len() > 0 => Some(h),
            _ => system_host,
        },
{
    if let Some(h) = env_host {
        if !h.as_str().is_empty() {
            return Some(h);
        }
    }
    system_host
}

} // verus!
