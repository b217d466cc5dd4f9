//! Text building blocks: decimal and hexadecimal rendering of integers,
//! joining, whitespace trimming and character-level helpers.
use vstd::prelude::*;
use vstd::std_specs::iter::IteratorSpec;
use vstd::string::*;

verus! {

broadcast use vstd::string::group_string_axioms;

/// The character of digit `d` (`d < 16`), lower- or upper-case for letters.
pub open spec fn digit_char(d: nat, upper: bool) -> char {
    if d == 0 { '0' } else if d == 1 { '1' } else if d == 2 { '2' } else if d == 3 { '3' }
    else if d == 4 { '4' } else if d == 5 { '5' } else if d == 6 { '6' } else if d == 7 { '7' }
    else if d == 8 { '8' } else if d == 9 { '9' }
    else if d == 10 { if upper { 'A' } else { 'a' } }
    else if d == 11 { if upper { 'B' } else { 'b' } }
    else if d == 12 { if upper { 'C' } else { 'c' } }
    else if d == 13 { if upper { 'D' } else { 'd' } }
    else if d == 14 { if upper { 'E' } else { 'e' } }
    else { if upper { 'F' } else { 'f' } }
}

/// Digits of `n` in base `base` (10 or 16), most significant first, without
/// leading zeros (zero itself is `"0"`).
pub open spec fn digits(n: nat, base: nat, upper: bool) -> Seq<char>
    recommends
        base >= 2,
    decreases n,
{
    if base < 2 || n < base {
        seq![digit_char(n, upper)]
    } else {
        proof {
            vstd::arithmetic::div_mod::lemma_div_decreases(n as int, base as int);
        }
        digits(n / base, base, upper) + seq![digit_char(n % base, upper)]
    }
}

/// Decimal rendering, as `{}` formats an unsigned integer.
pub open spec fn dec(n: nat) -> Seq<char> {
    digits(n, 10, false)
}

/// `s` left-padded with `'0'` to at least `width` characters.
pub open spec fn pad_zeros(s: Seq<char>, width: nat) -> Seq<char> {
    if s.len() < width {
        Seq::new((width - s.len()) as nat, |i: int| '0') + s
    } else {
        s
    }
}

/// Hexadecimal rendering padded to `width`, as `{:0width$x}` / `{:0width$X}`.
pub open spec fn hex_padded(n: nat, width: nat, upper: bool) -> Seq<char> {
    pad_zeros(digits(n, 16, upper), width)
}

/// `parts` separated by `sep`.
pub open spec fn join(parts: Seq<Seq<char>>, sep: Seq<char>) -> Seq<char>
    decreases parts.len(),
{
    if parts.len() == 0 {
        Seq::empty()
    } else if parts.len() == 1 {
        parts[0]
    } else {
        join(parts.drop_last(), sep) + sep + parts.last()
    }
}

/// The views of a sequence of strings.
pub open spec fn views(v: Seq<String>) -> Seq<Seq<char>> {
    v.map_values(|s: String| s@)
}

/// Appends one character to `s` by `String::push`, which std documents as
/// appending the given `char` to the end of the string: the new text is the
/// old one with `c` added at the end. This contract is trusted, not proved.
#[verifier::external_body]
pub(crate) fn push_char(s: &mut String, c: char)
    ensures
        final(s)@ == old(s)@.push(c),
{
    s.push(c);
}

/// Appends `t` to `s`.
pub fn push_str(s: &mut String, t: &str)
    ensures
        final(s)@ == old(s)@ + t@,
{
    s.append(t);
}

/// A new `String` holding `t`.
pub fn owned(t: &str) -> (res: String)
    ensures
        res@ == t@,
{
    t.to_owned()
}

/// The characters of `s`.
pub fn chars_of(s: &str) -> (res: Vec<char>)
    ensures
        res@ == s@,
{
    let mut it = s.chars();
    let mut v: Vec<char> = Vec::new();
    let ghost total = it.remaining();
    assert(total == s@);
    loop
        invariant
            v@ + it.remaining() == s@,
        decreases s@.len() - v@.len(),
    {
        let ghost before = it.remaining();
        match it.next() {
            Some(c) => {
                assert(before.len() > 0);
                v.push(c);
                assert(v@ + it.remaining() =~= s@) by {
                    assert(before =~= seq![c] + before.drop_first());
                }
            },
            None => {
                assert(before.len() == 0);
                assert(v@ =~= s@);
                return v;
            },
        }
    }
}

/// A new `String` holding the characters of `v`.
pub fn string_of(v: &Vec<char>) -> (res: String)
    ensures
        res@ == v@,
{
    let mut s = String::new();
    let mut i: usize = 0;
    while i < v.len()
        invariant
            i <= v.len(),
            s@ == v@.take(i as int),
        decreases v.len() - i,
    {
        push_char(&mut s, v[i]);
        i = i + 1;
        assert(s@ =~= v@.take(i as int));
    }
    assert(v@.take(v.len() as int) =~= v@);
    s
}

fn digit_of(d: u64, upper: bool) -> (c: char)
    requires
        d < 16,
    ensures
        c == digit_char(d as nat, upper),
{
    match d {
        0 => '0',
        1 => '1',
        2 => '2',
        3 => '3',
        4 => '4',
        5 => '5',
        6 => '6',
        7 => '7',
        8 => '8',
        9 => '9',
        10 => if upper { 'A' } else { 'a' },
        11 => if upper { 'B' } else { 'b' },
        12 => if upper { 'C' } else { 'c' },
        13 => if upper { 'D' } else { 'd' },
        14 => if upper { 'E' } else { 'e' },
        _ => if upper { 'F' } else { 'f' },
    }
}

/// Appends the digits of `n` in `base` (10 or 16) to `s`.
pub fn push_digits(s: &mut String, n: u64, base: u64, upper: bool)
    requires
        base == 10 || base == 16,
    ensures
        final(s)@ == old(s)@ + digits(n as nat, base as nat, upper),
    decreases n,
{
    if n >= base {
        push_digits(s, n / base, base, upper);
    }
    push_char(s, digit_of(n % base, upper));
    assert(n < base ==> n % base == n);
}

/// Appends the decimal rendering of `n` to `s`.
pub fn push_dec(s: &mut String, n: u64)
    ensures
        final(s)@ == old(s)@ + dec(n as nat),
{
    push_digits(s, n, 10, false);
}

/// Appends the digits of `n` in `base`, zero-padded to `width`, to `s`.
pub fn push_padded(s: &mut String, n: u64, base: u64, width: usize, upper: bool)
    requires
        base == 10 || base == 16,
    ensures
        final(s)@ == old(s)@ + pad_zeros(digits(n as nat, base as nat, upper), width as nat),
{
    let mut t = String::new();
    push_digits(&mut t, n, base, upper);
    assert(t@ =~= digits(n as nat, base as nat, upper));
    let len = t.as_str().unicode_len();
    let ghost start = s@;
    if len < width {
        let mut k: usize = 0;
        while k < width - len
            invariant
                len < width,
                k <= width - len,
                s@ == start + Seq::new(k as nat, |i: int| '0'),
            decreases width - len - k,
        {
            push_char(s, '0');
            k = k + 1;
            assert(s@ =~= start + Seq::new(k as nat, |i: int| '0'));
        }
    }
    push_str(s, t.as_str());
    assert(s@ =~= start + pad_zeros(digits(n as nat, base as nat, upper), width as nat));
}

/// Appends the hexadecimal rendering of `n`, zero-padded to `width`, to `s`.
pub fn push_hex_padded(s: &mut String, n: u64, width: usize, upper: bool)
    ensures
        final(s)@ == old(s)@ + hex_padded(n as nat, width as nat, upper),
{
    push_padded(s, n, 16, width, upper);
}

/// `parts` joined by `sep`.
pub fn join_strings(parts: &Vec<String>, sep: &str) -> (res: String)
    ensures
        res@ == join(views(parts@), sep@),
{
    let mut res = String::new();
    let ghost vs = views(parts@);
    let mut i: usize = 0;
    while i < parts.len()
        invariant
            i <= parts.len(),
            vs == views(parts@),
            res@ == join(vs.take(i as int), sep@),
        decreases parts.len() - i,
    {
        if i != 0 {
            push_str(&mut res, sep);
        }
        push_str(&mut res, parts[i].as_str());
        assert(vs.take(i + 1).drop_last() =~= vs.take(i as int));
        i = i + 1;
        assert(res@ =~= join(vs.take(i as int), sep@)) by {
            if i == 1 {
                assert(vs.take(0) =~= Seq::<Seq<char>>::empty());
            }
        }
    }
    assert(vs.take(parts.len() as int) =~= vs);
    res
}

/// Whitespace as `char::is_whitespace` defines it (Unicode White_Space).
pub open spec fn is_ws(c: char) -> bool {
    ||| ('\u{9}' <= c && c <= '\u{d}')
    ||| c == ' '
    ||| c == '\u{85}'
    ||| c == '\u{a0}'
    ||| c == '\u{1680}'
    ||| ('\u{2000}' <= c && c <= '\u{200a}')
    ||| c == '\u{2028}'
    ||| c == '\u{2029}'
    ||| c == '\u{202f}'
    ||| c == '\u{205f}'
    ||| c == '\u{3000}'
}

pub fn is_whitespace(c: char) -> (res: bool)
    ensures
        res == is_ws(c),
{
    ('\u{9}' <= c && c <= '\u{d}') || c == ' ' || c == '\u{85}' || c == '\u{a0}' || c
        == '\u{1680}' || ('\u{2000}' <= c && c <= '\u{200a}') || c == '\u{2028}' || c
        == '\u{2029}' || c == '\u{202f}' || c == '\u{205f}' || c == '\u{3000}'
}

/// `s` without leading whitespace.
pub open spec fn trim_start(s: Seq<char>) -> Seq<char>
    decreases s.len(),
{
    if s.len() > 0 && is_ws(s[0]) {
        trim_start(s.drop_first())
    } else {
        s
    }
}

/// `s` without trailing whitespace.
pub open spec fn trim_end(s: Seq<char>) -> Seq<char>
    decreases s.len(),
{
    if s.len() > 0 && is_ws(s.last()) {
        trim_end(s.drop_last())
    } else {
        s
    }
}

/// `s` without leading and trailing whitespace, as `str::trim` returns it.
pub open spec fn trim(s: Seq<char>) -> Seq<char> {
    trim_end(trim_start(s))
}

proof fn lemma_trim_start_skip(s: Seq<char>, i: int)
    requires
        0 <= i <= s.len(),
        forall|j: int| 0 <= j < i ==> is_ws(#[trigger] s[j]),
    ensures
        trim_start(s) == trim_start(s.skip(i)),
    decreases i,
{
    if i > 0 {
        assert(s.skip(1) =~= s.drop_first());
        lemma_trim_start_skip(s.drop_first(), i - 1);
        assert(s.drop_first().skip(i - 1) =~= s.skip(i));
    } else {
        assert(s.skip(0) =~= s);
    }
}

proof fn lemma_trim_end_take(s: Seq<char>, k: int)
    requires
        0 <= k <= s.len(),
        forall|j: int| k <= j < s.len() ==> is_ws(#[trigger] s[j]),
    ensures
        trim_end(s) == trim_end(s.take(k)),
    decreases s.len() - k,
{
    if k < s.len() {
        assert(s.drop_last() =~= s.take(s.len() - 1));
        lemma_trim_end_take(s.drop_last(), k);
        assert(s.drop_last().take(k) =~= s.take(k));
    } else {
        assert(s.take(k) =~= s);
    }
}

/// The characters of `s` without leading and trailing whitespace.
pub fn trim_chars(s: &Vec<char>) -> (res: Vec<char>)
    ensures
        res@ == trim(s@),
{
    let n = s.len();
    let mut i: usize = 0;
    while i < n && is_whitespace(s[i])
        invariant
            i <= n,
            n == s.len(),
            forall|j: int| 0 <= j < i ==> is_ws(#[trigger] s@[j]),
        decreases n - i,
    {
        i = i + 1;
    }
    let mut k: usize = n;
    while k > i && is_whitespace(s[k - 1])
        invariant
            i <= k <= n,
            n == s.len(),
            forall|j: int| k <= j < n ==> is_ws(#[trigger] s@[j]),
        decreases k,
    {
        k = k - 1;
    }
    let mut out: Vec<char> = Vec::new();
    let mut j: usize = i;
    while j < k
        invariant
            i <= j <= k <= n,
            n == s.len(),
            out@ == s@.subrange(i as int, j as int),
        decreases k - j,
    {
        out.push(s[j]);
        j = j + 1;
        assert(out@ =~= s@.subrange(i as int, j as int));
    }
    proof {
        lemma_trim_start_skip(s@, i as int);
        let t = s@.skip(i as int);
        if i < n {
            assert(!is_ws(t[0]));
        }
        assert(trim_start(t) == t);
        assert forall|j: int| (k - i) <= j < t.len() implies is_ws(#[trigger] t[j]) by {
            assert(t[j] == s@[j + i]);
        }
        lemma_trim_end_take(t, k - i);
        let u = t.take(k - i);
        assert(u =~= s@.subrange(i as int, k as int));
        if k > i {
            assert(!is_ws(u.last()));
        }
        assert(trim_end(u) == u);
    }
    out
}

/// `s` without leading and trailing whitespace.
pub fn trim_str(s: &str) -> (res: String)
    ensures
        res@ == trim(s@),
{
    let v = chars_of(s);
    let t = trim_chars(&v);
    string_of(&t)
}

/// Whether `s` begins with `prefix`.
pub fn starts_with(s: &Vec<char>, prefix: &str) -> (res: bool)
    ensures
        res == (prefix@.len() <= s@.len() && s@.take(prefix@.len() as int) == prefix@),
{
    let p = chars_of(prefix);
    if p.len() > s.len() {
        return false;
    }
    let mut i: usize = 0;
    while i < p.len()
        invariant
            i <= p.len() <= s.len(),
            p@ == prefix@,
            forall|j: int| 0 <= j < i ==> s@[j] == p@[j],
        decreases p.len() - i,
    {
        if s[i] != p[i] {
            assert(s@.take(p.len() as int)[i as int] != prefix@[i as int]);
            return false;
        }
        i = i + 1;
    }
    assert(s@.take(p.len() as int) =~= prefix@);
    true
}

/// Whether `c` occurs in `s`.
pub fn contains_char(s: &Vec<char>, c: char) -> (res: bool)
    ensures
        res == s@.contains(c),
{
    let mut i: usize = 0;
    while i < s.len()
        invariant
            i <= s.len(),
            forall|j: int| 0 <= j < i ==> s@[j] != c,
        decreases s.len() - i,
    {
        if s[i] == c {
            assert(s@[i as int] == c);
            return true;
        }
        i = i + 1;
    }
    false
}

/// Whether the characters of `s` are exactly `t`.
pub fn chars_eq(s: &Vec<char>, t: &str) -> (res: bool)
    ensures
        res == (s@ == t@),
{
    let tv = chars_of(t);
    if s.len() != tv.len() {
        return false;
    }
    let mut i: usize = 0;
    while i < s.len()
        invariant
            i <= s.len(),
            s.len() == tv.len(),
            tv@ == t@,
            forall|j: int| 0 <= j < i ==> s@[j] == tv@[j],
        decreases s.len() - i,
    {
        if s[i] != tv[i] {
            return false;
        }
        i = i + 1;
    }
    assert(s@ =~= t@);
    true
}

/// Whether the strings `s` and `t` hold the same text.
pub fn str_eq(s: &str, t: &str) -> (res: bool)
    ensures
        res == (s@ == t@),
{
    let v = chars_of(s);
    chars_eq(&v, t)
}

} // verus!
