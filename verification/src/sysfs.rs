//! Interpreting sysfs attribute text: hex and decimal numbers, values with a
//! trailing unit, and `[selected] other`-style enums. The attribute texts are
//! those the reads give after trimming; a missing file is `None`.
use vstd::prelude::*;
use crate::strings::{chars_of, string_of, trim, trim_chars};

verus! {

/// Value of `c` as a digit in `base` (10 or 16), if it is one.
pub open spec fn digit_value(c: char, base: nat) -> Option<nat> {
    if '0' <= c && c <= '9' {
        Some((c as nat - '0' as nat) as nat)
    } else if base == 16 && 'a' <= c && c <= 'f' {
        Some((c as nat - 'a' as nat + 10) as nat)
    } else if base == 16 && 'A' <= c && c <= 'F' {
        Some((c as nat - 'A' as nat + 10) as nat)
    } else {
        None
    }
}

/// Value of a string of digits in `base`; `None` if a character is not a digit.
pub open spec fn digits_value(s: Seq<char>, base: nat) -> Option<nat>
    decreases s.len(),
{
    if s.len() == 0 {
        Some(0)
    } else {
        match (digits_value(s.drop_last(), base), digit_value(s.last(), base)) {
            (Some(v), Some(d)) => Some(v * base + d),
            _ => None,
        }
    }
}

/// What `from_str_radix` gives for an unsigned type whose largest value is
/// `max`: an optional leading `+`, then at least one digit, and no overflow.
pub open spec fn parse_unsigned(s: Seq<char>, base: nat, max: nat) -> Option<nat> {
    let d = if s.len() > 0 && s[0] == '+' {
        s.drop_first()
    } else {
        s
    };
    if d.len() == 0 {
        None
    } else {
        match digits_value(d, base) {
            Some(v) => if v <= max {
                Some(v)
            } else {
                None
            },
            None => None,
        }
    }
}

/// What `str::parse::<i64>` gives: an optional sign, then at least one digit,
/// within the range of `i64`.
pub open spec fn parse_i64(s: Seq<char>) -> Option<int> {
    if s.len() > 0 && s[0] == '-' {
        let d = s.drop_first();
        if d.len() == 0 {
            None
        } else {
            match digits_value(d, 10) {
                Some(v) => if v <= 0x8000_0000_0000_0000 {
                    Some(-v)
                } else {
                    None
                },
                None => None,
            }
        }
    } else {
        match parse_unsigned(s, 10, 0x7fff_ffff_ffff_ffff) {
            Some(v) => Some(v as int),
            None => None,
        }
    }
}

proof fn lemma_digits_prefix(s: Seq<char>, base: nat, k: int)
    requires
        base >= 1,
        0 <= k <= s.len(),
        digits_value(s, base) is Some,
    ensures
        digits_value(s.take(k), base) is Some,
        digits_value(s.take(k), base)->0 <= digits_value(s, base)->0,
    decreases s.len() - k,
{
    if k < s.len() {
        assert(s.drop_last().take(k) =~= s.take(k));
        lemma_digits_prefix(s.drop_last(), base, k);
        let v = digits_value(s.drop_last(), base)->0;
        assert(v * base >= v) by (nonlinear_arith)
            requires
                base >= 1,
        {
        }
    } else {
        assert(s.take(k) =~= s);
    }
}

proof fn lemma_step_fits(acc: int, base: int, d: int, max: int)
    requires
        base > 0,
        0 <= d <= max,
        acc >= 0,
    ensures
        (acc * base + d <= max) == (acc <= (max - d) / base),
{
    vstd::arithmetic::div_mod::lemma_fundamental_div_mod(max - d, base);
    vstd::arithmetic::div_mod::lemma_mod_bound(max - d, base);
    let q = (max - d) / base;
    let r = (max - d) % base;
    assert((acc * base + d <= max) == (acc <= q)) by (nonlinear_arith)
        requires
            max - d == base * q + r,
            0 <= r < base,
            base > 0,
    {
        if acc <= q {
            assert(acc * base <= q * base);
        } else {
            assert(acc >= q + 1);
            assert(acc * base >= (q + 1) * base);
        }
    }
}

fn digit_of(c: char, base: u64) -> (res: Option<u64>)
    requires
        base == 10 || base == 16,
    ensures
        match digit_value(c, base as nat) {
            Some(d) => res == Some(d as u64),
            None => res is None,
        },
        res matches Some(d) ==> d < base,
{
    if '0' <= c && c <= '9' {
        Some((c as u64) - ('0' as u64))
    } else if base == 16 && 'a' <= c && c <= 'f' {
        Some((c as u64) - ('a' as u64) + 10)
    } else if base == 16 && 'A' <= c && c <= 'F' {
        Some((c as u64) - ('A' as u64) + 10)
    } else {
        None
    }
}

/// The value of `s[start..]` as digits in `base`, when it is at most `max`.
fn digits_at_most(s: &Vec<char>, start: usize, base: u64, max: u64) -> (res: Option<u64>)
    requires
        base == 10 || base == 16,
        start <= s.len(),
    ensures
        match digits_value(s@.skip(start as int), base as nat) {
            Some(v) => if v <= max {
                res == Some(v as u64)
            } else {
                res is None
            },
            None => res is None,
        },
{
    let ghost t = s@.skip(start as int);
    let mut acc: u64 = 0;
    let mut i: usize = start;
    assert(t.take(0) =~= Seq::<char>::empty());
    while i < s.len()
        invariant
            start <= i <= s.len(),
            t == s@.skip(start as int),
            base == 10 || base == 16,
            digits_value(t.take(i - start), base as nat) == Some(acc as nat),
            acc <= max,
        decreases s.len() - i,
    {
        let ghost k = i - start;
        assert(t.take(k + 1).drop_last() =~= t.take(k));
        assert(t.take(k + 1).last() == s@[i as int]);
        let d = match digit_of(s[i], base) {
            Some(d) => d,
            None => {
                proof {
                    if digits_value(t, base as nat) is Some {
                        lemma_digits_prefix(t, base as nat, k + 1);
                    }
                }
                return None;
            },
        };
        if d > max || acc > (max - d) / base {
            proof {
                if d <= max {
                    lemma_step_fits(acc as int, base as int, d as int, max as int);
                }
                if digits_value(t, base as nat) is Some {
                    lemma_digits_prefix(t, base as nat, k + 1);
                }
            }
            return None;
        }
        proof {
            lemma_step_fits(acc as int, base as int, d as int, max as int);
        }
        acc = acc * base + d;
        i = i + 1;
    }
    assert(t.take(i - start) =~= t);
    Some(acc)
}

/// `from_str_radix` for an unsigned type with largest value `max`.
pub fn parse_unsigned_chars(s: &Vec<char>, base: u64, max: u64) -> (res: Option<u64>)
    requires
        base == 10 || base == 16,
    ensures
        res matches Some(x) ==> parse_unsigned(s@, base as nat, max as nat) == Some(x as nat),
        match parse_unsigned(s@, base as nat, max as nat) {
            Some(v) => res == Some(v as u64),
            None => res is None,
        },
{
    let start: usize = if s.len() > 0 && s[0] == '+' {
        1
    } else {
        0
    };
    assert(s@.skip(start as int) =~= (if s@.len() > 0 && s@[0] == '+' {
        s@.drop_first()
    } else {
        s@
    }));
    if start >= s.len() {
        return None;
    }
    digits_at_most(s, start, base, max)
}

/// `str::parse::<u32>`.
pub fn parse_u32(s: &str) -> (res: Option<u32>)
    ensures
        res matches Some(x) ==> parse_unsigned(s@, 10, u32::MAX as nat) == Some(x as nat),
        match parse_unsigned(s@, 10, u32::MAX as nat) {
            Some(v) => res == Some(v as u32),
            None => res is None,
        },
{
    let v = chars_of(s);
    match parse_unsigned_chars(&v, 10, u32::MAX as u64) {
        Some(x) => Some(x as u32),
        None => None,
    }
}

/// `str::parse::<u64>`.
pub fn parse_u64(s: &str) -> (res: Option<u64>)
    ensures
        res matches Some(x) ==> parse_unsigned(s@, 10, u64::MAX as nat) == Some(x as nat),
        match parse_unsigned(s@, 10, u64::MAX as nat) {
            Some(v) => res == Some(v as u64),
            None => res is None,
        },
{
    let v = chars_of(s);
    parse_unsigned_chars(&v, 10, u64::MAX)
}

fn parse_i64_chars(s: &Vec<char>) -> (res: Option<i64>)
    ensures
        match parse_i64(s@) {
            Some(v) => res == Some(v as i64),
            None => res is None,
        },
{
    if s.len() > 0 && s[0] == '-' {
        assert(s@.skip(1) =~= s@.drop_first());
        if s.len() == 1 {
            return None;
        }
        match digits_at_most(s, 1, 10, 0x8000_0000_0000_0000u64) {
            Some(v) => {
                if v == 0x8000_0000_0000_0000u64 {
                    Some(i64::MIN)
                } else {
                    Some(-(v as i64))
                }
            },
            None => None,
        }
    } else {
        match parse_unsigned_chars(s, 10, 0x7fff_ffff_ffff_ffffu64) {
            Some(v) => Some(v as i64),
            None => None,
        }
    }
}

/// Hex digits and an optional `0x` / `0X` prefix, surrounding whitespace
/// removed: the text `parse_hex_u32` hands to `from_str_radix`.
pub open spec fn hex_body(s: Seq<char>) -> Seq<char> {
    let t = trim(s);
    if t.len() >= 2 && t[0] == '0' && (t[1] == 'x' || t[1] == 'X') {
        t.skip(2)
    } else {
        t
    }
}

pub open spec fn spec_parse_hex_u32(s: Seq<char>) -> Option<nat> {
    parse_unsigned(hex_body(s), 16, u32::MAX as nat)
}

/// Parses `0x00000001`, `0X1` or plain `1` (hexadecimal) as a `u32`.
pub fn parse_hex_u32(s: &str) -> (res: Option<u32>)
    ensures
        res matches Some(x) ==> spec_parse_hex_u32(s@) == Some(x as nat),
        match spec_parse_hex_u32(s@) {
            Some(v) => res == Some(v as u32),
            None => res is None,
        },
{
    let v = chars_of(s);
    let t = trim_chars(&v);
    let body: Vec<char> = if t.len() >= 2 && t[0] == '0' && (t[1] == 'x' || t[1] == 'X') {
        let mut b: Vec<char> = Vec::new();
        let mut i: usize = 2;
        while i < t.len()
            invariant
                2 <= i <= t.len(),
                b@ == t@.subrange(2, i as int),
            decreases t.len() - i,
        {
            b.push(t[i]);
            i = i + 1;
            assert(b@ =~= t@.subrange(2, i as int));
        }
        assert(b@ =~= t@.skip(2));
        b
    } else {
        t
    };
    assert(body@ == hex_body(s@));
    match parse_unsigned_chars(&body, 16, u32::MAX as u64) {
        Some(x) => Some(x as u32),
        None => None,
    }
}

proof fn lemma_digit_char_value(d: nat, upper: bool)
    requires
        d < 16,
    ensures
        digit_value(crate::strings::digit_char(d, upper), 16) == Some(d),
{
}

/// The digits of `n` in hexadecimal read back as `n`, and each is a digit.
proof fn lemma_digits_read_back(n: nat, upper: bool)
    ensures
        digits_value(crate::strings::digits(n, 16, upper), 16) == Some(n),
        forall|i: int|
            0 <= i < crate::strings::digits(n, 16, upper).len() ==> digit_value(
                #[trigger] crate::strings::digits(n, 16, upper)[i],
                16,
            ) is Some,
    decreases n,
{
    let s = crate::strings::digits(n, 16, upper);
    if n < 16 {
        lemma_digit_char_value(n, upper);
        assert(s.drop_last() =~= Seq::<char>::empty());
        assert(digits_value(Seq::<char>::empty(), 16) == Some(0nat));
        assert(digits_value(s, 16) == Some(n));
    } else {
        lemma_digits_read_back(n / 16, upper);
        lemma_digit_char_value(n % 16, upper);
        let t = crate::strings::digits(n / 16, 16, upper);
        assert(s == t + seq![crate::strings::digit_char(n % 16, upper)]);
        assert(s.drop_last() =~= t);
        assert(s.last() == crate::strings::digit_char(n % 16, upper));
        assert(n == (n / 16) * 16 + n % 16);
        assert(digits_value(s, 16) == Some(n));
        assert forall|i: int| 0 <= i < s.len() implies digit_value(#[trigger] s[i], 16) is Some by {
            if i < t.len() {
                assert(s[i] == t[i]);
            }
        }
    }
}

/// Leading zeros do not change the value of a string of digits.
proof fn lemma_leading_zeros(k: nat, s: Seq<char>)
    ensures
        digits_value(Seq::new(k, |i: int| '0') + s, 16) == (if s.len() == 0 {
            Some(0nat)
        } else {
            digits_value(s, 16)
        }),
    decreases s.len() + k,
{
    let z = Seq::new(k, |i: int| '0');
    if s.len() == 0 {
        assert(z + s =~= z);
        if k > 0 {
            let z1 = Seq::new((k - 1) as nat, |i: int| '0');
            lemma_leading_zeros((k - 1) as nat, s);
            assert(z1 + s =~= z1);
            assert(z.drop_last() =~= z1);
        } else {
            assert(z =~= Seq::<char>::empty());
        }
    } else {
        lemma_leading_zeros(k, s.drop_last());
        assert((z + s).drop_last() =~= z + s.drop_last());
        assert((z + s).last() == s.last());
        if s.drop_last().len() == 0 {
            assert(s.drop_last() =~= Seq::<char>::empty());
        }
    }
}

/// `parse_hex_u32` reads back what is written in hexadecimal with
/// `hex_padded`, upper or lower case, with or without a `0x` or `0X` prefix.
pub proof fn law_hex_round_trip(n: nat, width: nat, upper: bool)
    requires
        n <= u32::MAX,
    ensures
        spec_parse_hex_u32(crate::strings::hex_padded(n, width, upper)) == Some(n),
        spec_parse_hex_u32("0x"@ + crate::strings::hex_padded(n, width, upper)) == Some(n),
        spec_parse_hex_u32("0X"@ + crate::strings::hex_padded(n, width, upper)) == Some(n),
{
    let d = crate::strings::digits(n, 16, upper);
    lemma_digits_read_back(n, upper);
    let h = crate::strings::hex_padded(n, width, upper);
    let k: nat = if d.len() < width {
        (width - d.len()) as nat
    } else {
        0
    };
    let z = Seq::new(k, |i: int| '0');
    assert(h =~= z + d);
    lemma_leading_zeros(k, d);
    assert(d.len() > 0);
    assert forall|i: int| 0 <= i < h.len() implies digit_value(#[trigger] h[i], 16) is Some by {
        if i >= k {
            assert(h[i] == d[i - k]);
        }
    }
    assert(digits_value(h, 16) == Some(n));
    reveal_strlit("0x");
    reveal_strlit("0X");
    // No character of `h` is whitespace, `x`, `X` or `+`.
    assert(!crate::strings::is_ws(h[0]) && h[0] != '+');
    assert(!crate::strings::is_ws(h.last()));
    assert(h.len() >= 2 ==> h[1] != 'x' && h[1] != 'X');
    assert(crate::strings::trim(h) == h);
    assert(hex_body(h) == h);
    let p = "0x"@ + h;
    let q = "0X"@ + h;
    assert(!crate::strings::is_ws(p[0]) && !crate::strings::is_ws(p.last()));
    assert(crate::strings::trim(p) == p);
    assert(p.skip(2) =~= h);
    assert(hex_body(p) == h);
    assert(!crate::strings::is_ws(q[0]) && !crate::strings::is_ws(q.last()));
    assert(crate::strings::trim(q) == q);
    assert(q.skip(2) =~= h);
    assert(hex_body(q) == h);
}

/// Characters a `20000mV`-style value keeps: ASCII digits and `-`.
pub open spec fn is_number_char(c: char) -> bool {
    ('0' <= c && c <= '9') || c == '-'
}

/// The leading run of digits and `-` of `s`.
pub open spec fn number_prefix(s: Seq<char>) -> Seq<char>
    decreases s.len(),
{
    if s.len() > 0 && is_number_char(s[0]) {
        seq![s[0]] + number_prefix(s.drop_first())
    } else {
        Seq::empty()
    }
}

proof fn lemma_number_prefix(s: Seq<char>, k: int)
    requires
        0 <= k <= s.len(),
        forall|j: int| 0 <= j < k ==> is_number_char(#[trigger] s[j]),
        k < s.len() ==> !is_number_char(s[k]),
    ensures
        number_prefix(s) == s.take(k),
    decreases k,
{
    if k > 0 {
        let t = s.drop_first();
        assert forall|j: int| 0 <= j < k - 1 implies is_number_char(#[trigger] t[j]) by {
            assert(t[j] == s[j + 1]);
        }
        lemma_number_prefix(t, k - 1);
        assert(seq![s[0]] + t.take(k - 1) =~= s.take(k));
    } else {
        assert(s.take(0) =~= Seq::<char>::empty());
    }
}

pub open spec fn spec_read_mu_int(value: Option<Seq<char>>) -> Option<int> {
    match value {
        Some(s) => parse_i64(number_prefix(s)),
        None => None,
    }
}

/// Interprets a value like `20000mV` / `3250mA` / `5000`: the leading digits
/// (and `-`) parsed as an `i64`.
pub fn read_mu_int(value: Option<&str>) -> (res: Option<i64>)
    ensures
        match value {
            Some(s) => match spec_read_mu_int(Some(s@)) {
                Some(v) => res == Some(v as i64),
                None => res is None,
            },
            None => res is None,
        },
{
    let s = match value {
        Some(s) => s,
        None => {
            return None;
        },
    };
    let v = chars_of(s);
    let mut digits: Vec<char> = Vec::new();
    let mut i: usize = 0;
    while i < v.len() && (('0' <= v[i] && v[i] <= '9') || v[i] == '-')
        invariant
            i <= v.len(),
            digits@ == v@.take(i as int),
            forall|j: int| 0 <= j < i ==> is_number_char(#[trigger] v@[j]),
        decreases v.len() - i,
    {
        digits.push(v[i]);
        i = i + 1;
        assert(digits@ =~= v@.take(i as int));
    }
    proof {
        lemma_number_prefix(v@, i as int);
    }
    parse_i64_chars(&digits)
}

/// Interprets a hexadecimal attribute, as `parse_hex_u32` reads it; `None`
/// for a missing file.
pub fn read_hex_u32(value: Option<&str>) -> (res: Option<u32>)
    ensures
        match value {
            Some(s) => match spec_parse_hex_u32(s@) {
                Some(v) => res == Some(v as u32),
                None => res is None,
            },
            None => res is None,
        },
{
    match value {
        Some(s) => parse_hex_u32(s),
        None => None,
    }
}

/// Index of the first `c` in `s`, or -1.
pub open spec fn index_of(s: Seq<char>, c: char) -> int
    decreases s.len(),
{
    if s.len() == 0 {
        -1
    } else if s[0] == c {
        0
    } else {
        let r = index_of(s.drop_first(), c);
        if r < 0 {
            -1
        } else {
            r + 1
        }
    }
}

proof fn lemma_index_of(s: Seq<char>, c: char, i: int)
    requires
        0 <= i <= s.len(),
        forall|j: int| 0 <= j < i ==> #[trigger] s[j] != c,
        i < s.len() ==> s[i] == c,
    ensures
        index_of(s, c) == (if i < s.len() {
            i
        } else {
            -1
        }),
    decreases i,
{
    if s.len() > 0 && i > 0 {
        let t = s.drop_first();
        assert forall|j: int| 0 <= j < i - 1 implies #[trigger] t[j] != c by {
            assert(t[j] == s[j + 1]);
        }
        lemma_index_of(t, c, i - 1);
    }
}

/// Index of the first `c` in `v`.
pub fn find_char(v: &Vec<char>, c: char) -> (res: Option<usize>)
    ensures
        res is None <==> index_of(v@, c) < 0,
        res matches Some(i) ==> i == index_of(v@, c) && i < v@.len(),
{
    let mut i: usize = 0;
    while i < v.len()
        invariant
            i <= v@.len(),
            forall|j: int| 0 <= j < i ==> #[trigger] v@[j] != c,
        decreases v.len() - i,
    {
        if v[i] == c {
            proof {
                lemma_index_of(v@, c, i as int);
            }
            return Some(i);
        }
        i = i + 1;
    }
    proof {
        lemma_index_of(v@, c, i as int);
    }
    None
}

/// The text between the first `[` and the first `]`, when `[` comes first;
/// otherwise the whole text.
pub open spec fn bracketed(s: Seq<char>) -> Seq<char> {
    let a = index_of(s, '[');
    let b = index_of(s, ']');
    if a >= 0 && b >= 0 && a < b {
        s.subrange(a + 1, b)
    } else {
        s
    }
}

/// Interprets a `[a] b c`-style enum: the bracketed selection.
pub fn read_bracketed(value: Option<&str>) -> (res: Option<String>)
    ensures
        match value {
            Some(s) => res matches Some(r) && r@ == bracketed(s@),
            None => res is None,
        },
{
    let s = match value {
        Some(s) => s,
        None => {
            return None;
        },
    };
    let v = chars_of(s);
    match (find_char(&v, '['), find_char(&v, ']')) {
        (Some(a), Some(b)) => {
            if a < b {
                let mut out: Vec<char> = Vec::new();
                let mut i: usize = a + 1;
                while i < b
                    invariant
                        a < i <= b,
                        b < v@.len(),
                        out@ == v@.subrange(a + 1, i as int),
                    decreases b - i,
                {
                    out.push(v[i]);
                    i = i + 1;
                    assert(out@ =~= v@.subrange(a + 1, i as int));
                }
                return Some(string_of(&out));
            }
        },
        _ => {},
    }
    Some(string_of(&v))
}

} // verus!
