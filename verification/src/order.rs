//! Stable ordering of records by a key: the permutation of indices a stable
//! sort (such as `sort_by` / `sort_by_key`) puts them in.
use vstd::prelude::*;

verus! {

/// Lexicographic order of strings by character, which is the order of their
/// UTF-8 bytes.
pub open spec fn lex_lt(a: Seq<char>, b: Seq<char>) -> bool
    decreases a.len(),
{
    if a.len() == 0 {
        b.len() > 0
    } else if b.len() == 0 {
        false
    } else if a[0] != b[0] {
        a[0] < b[0]
    } else {
        lex_lt(a.drop_first(), b.drop_first())
    }
}

/// `sorted` with index `i` inserted after every index whose key is not greater.
pub open spec fn insert_by_nat(keys: Seq<nat>, sorted: Seq<int>, i: int) -> Seq<int>
    decreases sorted.len(),
{
    if sorted.len() == 0 {
        seq![i]
    } else if keys[sorted.last()] <= keys[i] {
        sorted.push(i)
    } else {
        insert_by_nat(keys, sorted.drop_last(), i).push(sorted.last())
    }
}

/// The order a stable sort by `keys` puts the first `n` records in.
pub open spec fn order_by_nat(keys: Seq<nat>, n: int) -> Seq<int>
    decreases n,
{
    if n <= 0 {
        seq![]
    } else {
        insert_by_nat(keys, order_by_nat(keys, n - 1), n - 1)
    }
}

/// `sorted` with index `i` inserted after every index whose key is not greater.
pub open spec fn insert_by_text(keys: Seq<Seq<char>>, sorted: Seq<int>, i: int) -> Seq<int>
    decreases sorted.len(),
{
    if sorted.len() == 0 {
        seq![i]
    } else if !lex_lt(keys[i], keys[sorted.last()]) {
        sorted.push(i)
    } else {
        insert_by_text(keys, sorted.drop_last(), i).push(sorted.last())
    }
}

/// The order a stable sort by the text `keys` puts the first `n` records in.
pub open spec fn order_by_text(keys: Seq<Seq<char>>, n: int) -> Seq<int>
    decreases n,
{
    if n <= 0 {
        seq![]
    } else {
        insert_by_text(keys, order_by_text(keys, n - 1), n - 1)
    }
}

pub open spec fn as_ints(v: Seq<usize>) -> Seq<int> {
    v.map_values(|x: usize| x as int)
}

pub open spec fn nat_keys(v: Seq<u64>) -> Seq<nat> {
    v.map_values(|x: u64| x as nat)
}

/// Lexicographic comparison of two strings of characters.
pub fn lex_less(a: &Vec<char>, b: &Vec<char>) -> (res: bool)
    ensures
        res == lex_lt(a@, b@),
{
    let mut i: usize = 0;
    assert(a@.skip(0) =~= a@);
    assert(b@.skip(0) =~= b@);
    while i < a.len() && i < b.len() && a[i] == b[i]
        invariant
            i <= a@.len(),
            i <= b@.len(),
            lex_lt(a@, b@) == lex_lt(a@.skip(i as int), b@.skip(i as int)),
        decreases a.len() - i,
    {
        assert(a@.skip(i as int).drop_first() =~= a@.skip(i + 1));
        assert(b@.skip(i as int).drop_first() =~= b@.skip(i + 1));
        i = i + 1;
    }
    if i == a.len() {
        i < b.len()
    } else if i == b.len() {
        false
    } else {
        a[i] < b[i]
    }
}

/// Every index below `n` occurs in an order, once, and nothing else does.
pub open spec fn is_permutation(order: Seq<int>, n: int) -> bool {
    &&& order.len() == n
    &&& forall|j: int| 0 <= j < order.len() ==> 0 <= #[trigger] order[j] < n
    &&& forall|j: int, k: int| 0 <= j < k < order.len() ==> order[j] != order[k]
}

proof fn lemma_insert_nat_members(keys: Seq<nat>, s: Seq<int>, i: int)
    ensures
        insert_by_nat(keys, s, i).len() == s.len() + 1,
        forall|j: int|
            0 <= j < s.len() + 1 ==> #[trigger] insert_by_nat(keys, s, i)[j] == i || s.contains(
                insert_by_nat(keys, s, i)[j],
            ),
    decreases s.len(),
{
    if s.len() > 0 && !(keys[s.last()] <= keys[i]) {
        lemma_insert_nat_members(keys, s.drop_last(), i);
        let r = insert_by_nat(keys, s, i);
        assert forall|j: int| 0 <= j < s.len() + 1 implies #[trigger] r[j] == i || s.contains(
            r[j],
        ) by {
            if j < s.len() {
                let x = insert_by_nat(keys, s.drop_last(), i)[j];
                if x != i {
                    let k = choose|k: int| 0 <= k < s.drop_last().len() && s.drop_last()[k] == x;
                    assert(s[k] == x);
                }
            } else {
                assert(s[s.len() - 1] == r[j]);
            }
        }
    } else if s.len() > 0 {
        let r = insert_by_nat(keys, s, i);
        assert forall|j: int| 0 <= j < s.len() + 1 implies #[trigger] r[j] == i || s.contains(
            r[j],
        ) by {
            if j < s.len() {
                assert(s[j] == r[j]);
            }
        }
    }
}

proof fn lemma_insert_text_members(keys: Seq<Seq<char>>, s: Seq<int>, i: int)
    ensures
        insert_by_text(keys, s, i).len() == s.len() + 1,
        forall|j: int|
            0 <= j < s.len() + 1 ==> #[trigger] insert_by_text(keys, s, i)[j] == i || s.contains(
                insert_by_text(keys, s, i)[j],
            ),
    decreases s.len(),
{
    if s.len() > 0 && lex_lt(keys[i], keys[s.last()]) {
        lemma_insert_text_members(keys, s.drop_last(), i);
        let r = insert_by_text(keys, s, i);
        assert forall|j: int| 0 <= j < s.len() + 1 implies #[trigger] r[j] == i || s.contains(
            r[j],
        ) by {
            if j < s.len() {
                let x = insert_by_text(keys, s.drop_last(), i)[j];
                if x != i {
                    let k = choose|k: int| 0 <= k < s.drop_last().len() && s.drop_last()[k] == x;
                    assert(s[k] == x);
                }
            } else {
                assert(s[s.len() - 1] == r[j]);
            }
        }
    } else if s.len() > 0 {
        let r = insert_by_text(keys, s, i);
        assert forall|j: int| 0 <= j < s.len() + 1 implies #[trigger] r[j] == i || s.contains(
            r[j],
        ) by {
            if j < s.len() {
                assert(s[j] == r[j]);
            }
        }
    }
}

/// A stable order of `n` records lists each index below `n` exactly once.
pub proof fn lemma_order_by_text_len(keys: Seq<Seq<char>>, n: int)
    requires
        n >= 0,
    ensures
        order_by_text(keys, n).len() == n,
        forall|j: int| 0 <= j < n ==> 0 <= #[trigger] order_by_text(keys, n)[j] < n,
    decreases n,
{
    if n > 0 {
        lemma_order_by_text_len(keys, n - 1);
        let prev = order_by_text(keys, n - 1);
        lemma_insert_text_members(keys, prev, n - 1);
        assert forall|j: int| 0 <= j < n implies 0 <= #[trigger] order_by_text(keys, n)[j] < n by {
            let x = order_by_text(keys, n)[j];
            if x != n - 1 {
                let k = choose|k: int| 0 <= k < prev.len() && prev[k] == x;
            }
        }
    }
}

/// A stable order of `n` records lists each index below `n` exactly once.
pub proof fn lemma_order_by_nat_len(keys: Seq<nat>, n: int)
    requires
        n >= 0,
    ensures
        order_by_nat(keys, n).len() == n,
        forall|j: int| 0 <= j < n ==> 0 <= #[trigger] order_by_nat(keys, n)[j] < n,
    decreases n,
{
    if n > 0 {
        lemma_order_by_nat_len(keys, n - 1);
        let prev = order_by_nat(keys, n - 1);
        lemma_insert_nat_members(keys, prev, n - 1);
        assert forall|j: int| 0 <= j < n implies 0 <= #[trigger] order_by_nat(keys, n)[j] < n by {
            let x = order_by_nat(keys, n)[j];
            if x != n - 1 {
                let k = choose|k: int| 0 <= k < prev.len() && prev[k] == x;
            }
        }
    }
}

fn append_tail(sorted: &mut Vec<usize>, tail: &Vec<usize>)
    ensures
        as_ints(final(sorted)@) == as_ints(old(sorted)@) + as_ints(tail@),
{
    let ghost base = as_ints(sorted@);
    let mut k: usize = 0;
    while k < tail.len()
        invariant
            k <= tail@.len(),
            as_ints(sorted@) == base + as_ints(tail@).take(k as int),
        decreases tail.len() - k,
    {
        let ghost before = as_ints(sorted@);
        sorted.push(tail[k]);
        assert(as_ints(sorted@) =~= before.push(tail@[k as int] as int));
        k = k + 1;
        assert(as_ints(sorted@) =~= base + as_ints(tail@).take(k as int));
    }
    assert(as_ints(tail@).take(k as int) =~= as_ints(tail@));
}

fn insert_nat(keys: &Vec<u64>, sorted: &mut Vec<usize>, i: usize)
    requires
        i < keys@.len(),
        forall|j: int| 0 <= j < old(sorted)@.len() ==> #[trigger] old(sorted)@[j] < keys@.len(),
    ensures
        as_ints(final(sorted)@) == insert_by_nat(nat_keys(keys@), as_ints(old(sorted)@), i as int),
{
    let ghost ks = nat_keys(keys@);
    let ghost target = insert_by_nat(ks, as_ints(sorted@), i as int);
    let mut tail: Vec<usize> = Vec::new();
    assert(target =~= insert_by_nat(ks, as_ints(sorted@), i as int) + as_ints(tail@));
    while sorted.len() > 0 && keys[sorted[sorted.len() - 1]] > keys[i]
        invariant
            i < keys@.len(),
            ks == nat_keys(keys@),
            forall|j: int| 0 <= j < sorted@.len() ==> #[trigger] sorted@[j] < keys@.len(),
            target == insert_by_nat(ks, as_ints(sorted@), i as int) + as_ints(tail@),
        decreases sorted.len(),
    {
        let ghost before = sorted@;
        let ghost old_tail = as_ints(tail@);
        let x = sorted.pop().unwrap();
        assert(as_ints(before).drop_last() =~= as_ints(sorted@));
        tail.insert(0, x);
        assert(as_ints(tail@) =~= seq![x as int] + old_tail);
        assert(target =~= insert_by_nat(ks, as_ints(sorted@), i as int) + as_ints(tail@));
    }
    let ghost before_push = as_ints(sorted@);
    sorted.push(i);
    assert(as_ints(sorted@) =~= insert_by_nat(ks, before_push, i as int));
    append_tail(sorted, &tail);
}

/// The order a stable sort by `keys` puts the records in.
pub fn stable_order_u64(keys: &Vec<u64>) -> (res: Vec<usize>)
    ensures
        as_ints(res@) == order_by_nat(nat_keys(keys@), keys@.len() as int),
        forall|j: int| 0 <= j < res@.len() ==> #[trigger] res@[j] < keys@.len(),
{
    let mut order: Vec<usize> = Vec::new();
    let mut i: usize = 0;
    assert(as_ints(order@) =~= Seq::<int>::empty());
    while i < keys.len()
        invariant
            i <= keys@.len(),
            as_ints(order@) == order_by_nat(nat_keys(keys@), i as int),
            forall|j: int| 0 <= j < order@.len() ==> #[trigger] order@[j] < i,
        decreases keys.len() - i,
    {
        let ghost before = order@;
        insert_nat(keys, &mut order, i);
        proof {
            lemma_insert_nat_members(nat_keys(keys@), as_ints(before), i as int);
            assert forall|j: int| 0 <= j < order@.len() implies #[trigger] order@[j] < i + 1 by {
                let x = as_ints(order@)[j];
                if x != i {
                    let k = choose|k: int| 0 <= k < as_ints(before).len() && as_ints(before)[k] == x;
                    assert(before[k] < i);
                }
            }
        }
        i = i + 1;
    }
    order
}

fn insert_text(keys: &Vec<Vec<char>>, sorted: &mut Vec<usize>, i: usize)
    requires
        i < keys@.len(),
        forall|j: int| 0 <= j < old(sorted)@.len() ==> #[trigger] old(sorted)@[j] < keys@.len(),
    ensures
        as_ints(final(sorted)@) == insert_by_text(
            keys@.map_values(|k: Vec<char>| k@),
            as_ints(old(sorted)@),
            i as int,
        ),
{
    let ghost ks = keys@.map_values(|k: Vec<char>| k@);
    let ghost target = insert_by_text(ks, as_ints(sorted@), i as int);
    let mut tail: Vec<usize> = Vec::new();
    assert(target =~= insert_by_text(ks, as_ints(sorted@), i as int) + as_ints(tail@));
    while sorted.len() > 0 && lex_less(&keys[i], &keys[sorted[sorted.len() - 1]])
        invariant
            i < keys@.len(),
            ks == keys@.map_values(|k: Vec<char>| k@),
            forall|j: int| 0 <= j < sorted@.len() ==> #[trigger] sorted@[j] < keys@.len(),
            target == insert_by_text(ks, as_ints(sorted@), i as int) + as_ints(tail@),
        decreases sorted.len(),
    {
        let ghost before = sorted@;
        let ghost old_tail = as_ints(tail@);
        let x = sorted.pop().unwrap();
        assert(as_ints(before).drop_last() =~= as_ints(sorted@));
        tail.insert(0, x);
        assert(as_ints(tail@) =~= seq![x as int] + old_tail);
        assert(target =~= insert_by_text(ks, as_ints(sorted@), i as int) + as_ints(tail@));
    }
    let ghost before_push = as_ints(sorted@);
    sorted.push(i);
    assert(as_ints(sorted@) =~= insert_by_text(ks, before_push, i as int));
    append_tail(sorted, &tail);
}

/// The order a stable sort by the text `keys` puts the records in.
pub fn stable_order_text(keys: &Vec<Vec<char>>) -> (res: Vec<usize>)
    ensures
        as_ints(res@) == order_by_text(keys@.map_values(|k: Vec<char>| k@), keys@.len() as int),
        forall|j: int| 0 <= j < res@.len() ==> #[trigger] res@[j] < keys@.len(),
{
    let ghost ks = keys@.map_values(|k: Vec<char>| k@);
    let mut order: Vec<usize> = Vec::new();
    let mut i: usize = 0;
    assert(as_ints(order@) =~= Seq::<int>::empty());
    while i < keys.len()
        invariant
            i <= keys@.len(),
            ks == keys@.map_values(|k: Vec<char>| k@),
            as_ints(order@) == order_by_text(ks, i as int),
            forall|j: int| 0 <= j < order@.len() ==> #[trigger] order@[j] < i,
        decreases keys.len() - i,
    {
        let ghost before = order@;
        insert_text(keys, &mut order, i);
        proof {
            lemma_insert_text_members(ks, as_ints(before), i as int);
            assert forall|j: int| 0 <= j < order@.len() implies #[trigger] order@[j] < i + 1 by {
                let x = as_ints(order@)[j];
                if x != i {
                    let k = choose|k: int| 0 <= k < as_ints(before).len() && as_ints(before)[k] == x;
                    assert(before[k] < i);
                }
            }
        }
        i = i + 1;
    }
    order
}

/// Where `insert_by_nat` puts `i`: after the first `p` entries of `s`, every
/// later entry having a larger key, and the entry just before it a key not
/// larger.
proof fn lemma_insert_nat_shape(keys: Seq<nat>, s: Seq<int>, i: int) -> (p: int)
    ensures
        0 <= p <= s.len(),
        insert_by_nat(keys, s, i) == s.take(p).push(i) + s.skip(p),
        forall|q: int| p <= q < s.len() ==> keys[#[trigger] s[q]] > keys[i],
        p > 0 ==> keys[s[p - 1]] <= keys[i],
    decreases s.len(),
{
    if s.len() == 0 {
        assert(s.take(0).push(i) + s.skip(0) =~= seq![i]);
        0
    } else if keys[s.last()] <= keys[i] {
        let n = s.len() as int;
        assert(s.take(n).push(i) + s.skip(n) =~= s.push(i));
        n
    } else {
        let d = s.drop_last();
        let p = lemma_insert_nat_shape(keys, d, i);
        assert(s.take(p).push(i) + s.skip(p) =~= (d.take(p).push(i) + d.skip(p)).push(s.last()));
        assert forall|q: int| p <= q < s.len() implies keys[#[trigger] s[q]] > keys[i] by {
            if q < s.len() - 1 {
                assert(s[q] == d[q]);
            }
        }
        if p > 0 {
            assert(s[p - 1] == d[p - 1]);
        }
        p
    }
}

/// A stable sort by `keys`: the order of the first `n` records lists each of
/// them once, by non-decreasing key, and records with equal keys keep their
/// relative order.
pub proof fn law_order_by_nat(keys: Seq<nat>, n: int)
    requires
        0 <= n <= keys.len(),
    ensures
        is_permutation(order_by_nat(keys, n), n),
        forall|j: int, k: int|
            0 <= j < k < n ==> keys[order_by_nat(keys, n)[j]] <= keys[order_by_nat(keys, n)[k]],
        forall|j: int, k: int|
            0 <= j < k < n && keys[order_by_nat(keys, n)[j]] == keys[order_by_nat(keys, n)[k]]
                ==> order_by_nat(keys, n)[j] < order_by_nat(keys, n)[k],
    decreases n,
{
    if n == 0 {
        assert(order_by_nat(keys, 0) =~= Seq::<int>::empty());
    } else {
        law_order_by_nat(keys, n - 1);
        let s = order_by_nat(keys, n - 1);
        let i = n - 1;
        let p = lemma_insert_nat_shape(keys, s, i);
        let o = order_by_nat(keys, n);
        assert(o == s.take(p).push(i) + s.skip(p));
        assert(o.len() == n);
        assert forall|j: int| 0 <= j < n implies #[trigger] o[j] == (if j < p {
            s[j]
        } else if j == p {
            i
        } else {
            s[j - 1]
        }) by {}
        assert forall|j: int| 0 <= j < o.len() implies 0 <= #[trigger] o[j] < n by {}
        assert forall|j: int, k: int| 0 <= j < k < o.len() implies o[j] != o[k] by {
            if j != p && k != p {
                let jj = if j < p { j } else { j - 1 };
                let kk = if k < p { k } else { k - 1 };
                assert(o[j] == s[jj] && o[k] == s[kk]);
            }
        }
        assert forall|j: int, k: int| 0 <= j < k < n implies keys[o[j]] <= keys[o[k]] by {
            if j == p {
                assert(o[k] == s[k - 1]);
            } else if k == p {
                assert(o[j] == s[j]);
                if j < p - 1 {
                    assert(keys[s[j]] <= keys[s[p - 1]]);
                }
            } else {
                let jj = if j < p { j } else { j - 1 };
                let kk = if k < p { k } else { k - 1 };
                assert(o[j] == s[jj] && o[k] == s[kk]);
                assert(jj < kk);
            }
        }
        assert forall|j: int, k: int|
            0 <= j < k < n && keys[o[j]] == keys[o[k]] implies o[j] < o[k] by {
            if j == p {
                assert(o[k] == s[k - 1]);
            } else if k == p {
                assert(o[j] == s[j]);
            } else {
                let jj = if j < p { j } else { j - 1 };
                let kk = if k < p { k } else { k - 1 };
                assert(o[j] == s[jj] && o[k] == s[kk]);
                assert(jj < kk);
            }
        }
    }
}

proof fn lemma_lex_irreflexive(a: Seq<char>)
    ensures
        !lex_lt(a, a),
    decreases a.len(),
{
    if a.len() > 0 {
        lemma_lex_irreflexive(a.drop_first());
    }
}

pub(crate) proof fn lemma_lex_total(a: Seq<char>, b: Seq<char>)
    ensures
        lex_lt(a, b) || lex_lt(b, a) || a == b,
    decreases a.len(),
{
    if a.len() > 0 && b.len() > 0 && a[0] == b[0] {
        lemma_lex_total(a.drop_first(), b.drop_first());
        if a.drop_first() == b.drop_first() {
            assert(a =~= seq![a[0]] + a.drop_first());
            assert(b =~= seq![b[0]] + b.drop_first());
        }
    } else if a.len() == 0 && b.len() == 0 {
        assert(a =~= b);
    }
}

proof fn lemma_lex_transitive(a: Seq<char>, b: Seq<char>, c: Seq<char>)
    requires
        lex_lt(a, b),
        lex_lt(b, c),
    ensures
        lex_lt(a, c),
    decreases a.len(),
{
    if a.len() > 0 && b.len() > 0 && c.len() > 0 && a[0] == b[0] && b[0] == c[0] {
        lemma_lex_transitive(a.drop_first(), b.drop_first(), c.drop_first());
    }
}

/// `a` does not come after `b`.
pub open spec fn lex_le(a: Seq<char>, b: Seq<char>) -> bool {
    !lex_lt(b, a)
}

proof fn lemma_lex_le_transitive(a: Seq<char>, b: Seq<char>, c: Seq<char>)
    requires
        lex_le(a, b),
        lex_le(b, c),
    ensures
        lex_le(a, c),
{
    lemma_lex_total(a, b);
    lemma_lex_total(b, c);
    if lex_lt(c, a) {
        if a == b {
        } else if b == c {
        } else {
            lemma_lex_transitive(a, b, c);
            lemma_lex_transitive(c, a, b);
            lemma_lex_irreflexive(c);
            lemma_lex_transitive(c, a, c);
        }
    }
}

/// Where `insert_by_text` puts `i`: after the first `p` entries of `s`,
/// every later entry having a key after it, and the entry just before it a
/// key not after it.
proof fn lemma_insert_text_shape(keys: Seq<Seq<char>>, s: Seq<int>, i: int) -> (p: int)
    ensures
        0 <= p <= s.len(),
        insert_by_text(keys, s, i) == s.take(p).push(i) + s.skip(p),
        forall|q: int| p <= q < s.len() ==> lex_lt(keys[i], keys[#[trigger] s[q]]),
        p > 0 ==> lex_le(keys[s[p - 1]], keys[i]),
    decreases s.len(),
{
    if s.len() == 0 {
        assert(s.take(0).push(i) + s.skip(0) =~= seq![i]);
        0
    } else if !lex_lt(keys[i], keys[s.last()]) {
        let n = s.len() as int;
        assert(s.take(n).push(i) + s.skip(n) =~= s.push(i));
        n
    } else {
        let d = s.drop_last();
        let p = lemma_insert_text_shape(keys, d, i);
        assert(s.take(p).push(i) + s.skip(p) =~= (d.take(p).push(i) + d.skip(p)).push(s.last()));
        assert forall|q: int| p <= q < s.len() implies lex_lt(keys[i], keys[#[trigger] s[q]]) by {
            if q < s.len() - 1 {
                assert(s[q] == d[q]);
            }
        }
        if p > 0 {
            assert(s[p - 1] == d[p - 1]);
        }
        p
    }
}

/// A stable sort by the text `keys`: the order of the first `n` records
/// lists each of them once, in lexicographic order of their keys, and
/// records with equal keys keep their relative order.
pub proof fn law_order_by_text(keys: Seq<Seq<char>>, n: int)
    requires
        0 <= n <= keys.len(),
    ensures
        is_permutation(order_by_text(keys, n), n),
        forall|j: int, k: int|
            0 <= j < k < n ==> lex_le(
                keys[order_by_text(keys, n)[j]],
                keys[order_by_text(keys, n)[k]],
            ),
        forall|j: int, k: int|
            0 <= j < k < n && keys[order_by_text(keys, n)[j]] == keys[order_by_text(keys, n)[k]]
                ==> order_by_text(keys, n)[j] < order_by_text(keys, n)[k],
    decreases n,
{
    if n == 0 {
        assert(order_by_text(keys, 0) =~= Seq::<int>::empty());
    } else {
        law_order_by_text(keys, n - 1);
        let s = order_by_text(keys, n - 1);
        let i = n - 1;
        let p = lemma_insert_text_shape(keys, s, i);
        let o = order_by_text(keys, n);
        assert(o == s.take(p).push(i) + s.skip(p));
        assert(o.len() == n);
        assert forall|j: int| 0 <= j < n implies #[trigger] o[j] == (if j < p {
            s[j]
        } else if j == p {
            i
        } else {
            s[j - 1]
        }) by {}
        assert forall|j: int| 0 <= j < o.len() implies 0 <= #[trigger] o[j] < n by {}
        assert forall|j: int, k: int| 0 <= j < k < o.len() implies o[j] != o[k] by {
            if j != p && k != p {
                let jj = if j < p { j } else { j - 1 };
                let kk = if k < p { k } else { k - 1 };
                assert(o[j] == s[jj] && o[k] == s[kk]);
            }
        }
        assert forall|j: int, k: int| 0 <= j < k < n implies lex_le(keys[o[j]], keys[o[k]]) by {
            if j == p {
                assert(o[k] == s[k - 1]);
                if lex_lt(keys[s[k - 1]], keys[i]) {
                    lemma_lex_transitive(keys[i], keys[s[k - 1]], keys[i]);
                    lemma_lex_irreflexive(keys[i]);
                }
            } else if k == p {
                assert(o[j] == s[j]);
                if j < p - 1 {
                    lemma_lex_le_transitive(keys[s[j]], keys[s[p - 1]], keys[i]);
                }
            } else {
                let jj = if j < p { j } else { j - 1 };
                let kk = if k < p { k } else { k - 1 };
                assert(o[j] == s[jj] && o[k] == s[kk]);
                assert(jj < kk);
            }
        }
        assert forall|j: int, k: int|
            0 <= j < k < n && keys[o[j]] == keys[o[k]] implies o[j] < o[k] by {
            if j == p {
                assert(o[k] == s[k - 1]);
                lemma_lex_irreflexive(keys[i]);
            } else if k == p {
                assert(o[j] == s[j]);
            } else {
                let jj = if j < p { j } else { j - 1 };
                let kk = if k < p { k } else { k - 1 };
                assert(o[j] == s[jj] && o[k] == s[kk]);
                assert(jj < kk);
            }
        }
    }
}

} // verus!
