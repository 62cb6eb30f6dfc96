//! Ordered and duplicate-free lists of strings.
//!
//! `String` orders by the bytes of its UTF-8 encoding, which orders as the
//! code points do; `lex_lt` states that order over `Seq<char>`.
use vstd::prelude::*;

use crate::models::strs;
use crate::text::chars_of;

verus! {

/// Strict lexicographic order on character sequences.
pub open spec fn lex_lt(a: Seq<char>, b: Seq<char>) -> bool
    decreases a.len(),
{
    if a.len() == 0 {
        b.len() > 0
    } else if b.len() == 0 {
        false
    } else if (a[0] as u32) < (b[0] as u32) {
        true
    } else if (a[0] as u32) > (b[0] as u32) {
        false
    } else {
        lex_lt(a.drop_first(), b.drop_first())
    }
}

pub proof fn lemma_lex_irreflexive(a: Seq<char>)
    ensures
        !lex_lt(a, a),
    decreases a.len(),
{
    if a.len() > 0 {
        lemma_lex_irreflexive(a.drop_first());
    }
}

pub proof fn lemma_lex_asymmetric(a: Seq<char>, b: Seq<char>)
    ensures
        !(lex_lt(a, b) && lex_lt(b, a)),
    decreases a.len(),
{
    if a.len() > 0 && b.len() > 0 && (a[0] as u32) == (b[0] as u32) {
        lemma_lex_asymmetric(a.drop_first(), b.drop_first());
    }
}

pub proof fn lemma_lex_total(a: Seq<char>, b: Seq<char>)
    ensures
        a == b || lex_lt(a, b) || lex_lt(b, a),
    decreases a.len(),
{
    if a.len() > 0 && b.len() > 0 {
        if (a[0] as u32) == (b[0] as u32) {
            vstd::utf8::char_u32_cast(a[0], a[0] as u32);
            vstd::utf8::char_u32_cast(b[0], b[0] as u32);
            lemma_lex_total(a.drop_first(), b.drop_first());
            if a.drop_first() == b.drop_first() {
                assert(a =~= seq![a[0]] + a.drop_first());
                assert(b =~= seq![b[0]] + b.drop_first());
            }
        }
    } else if a.len() == 0 && b.len() == 0 {
        assert(a =~= b);
    }
}

pub proof fn lemma_lex_transitive(a: Seq<char>, b: Seq<char>, c: Seq<char>)
    requires
        lex_lt(a, b),
        lex_lt(b, c),
    ensures
        lex_lt(a, c),
    decreases a.len(),
{
    if a.len() > 0 && b.len() > 0 && c.len() > 0 {
        if (a[0] as u32) == (b[0] as u32) && (b[0] as u32) == (c[0] as u32) {
            lemma_lex_transitive(a.drop_first(), b.drop_first(), c.drop_first());
        }
    }
}

/// Strictly increasing, hence without duplicates.
pub open spec fn strictly_sorted(s: Seq<Seq<char>>) -> bool {
    forall|i: int, j: int| 0 <= i < j < s.len() ==> lex_lt(#[trigger] s[i], #[trigger] s[j])
}

/// Two strictly ascending lists with the same entries are the same list.
pub proof fn lemma_sorted_unique(a: Seq<Seq<char>>, b: Seq<Seq<char>>)
    requires
        strictly_sorted(a),
        strictly_sorted(b),
        forall|x: Seq<char>| a.contains(x) <==> b.contains(x),
    ensures
        a == b,
    decreases a.len(),
{
    if a.len() == 0 {
        if b.len() > 0 {
            assert(b.contains(b[0]));
        }
        assert(a =~= b);
    } else {
        assert(a.contains(a[0]));
        assert(b.contains(a[0]));
        assert(b.contains(b[0]));
        assert(a.contains(b[0]));
        let j = choose|j: int| 0 <= j < b.len() && b[j] == a[0];
        let i = choose|i: int| 0 <= i < a.len() && a[i] == b[0];
        if a[0] != b[0] {
            assert(lex_lt(b[0], b[j]));
            assert(lex_lt(a[0], a[i]));
            lemma_lex_asymmetric(a[0], b[0]);
        }
        let a2 = a.drop_first();
        let b2 = b.drop_first();
        assert forall|x: Seq<char>| a2.contains(x) <==> b2.contains(x) by {
            if a2.contains(x) {
                let k = choose|k: int| 0 <= k < a2.len() && a2[k] == x;
                assert(a[k + 1] == x);
                assert(lex_lt(a[0], a[k + 1]));
                lemma_lex_irreflexive(a[0]);
                assert(b.contains(x));
                let m = choose|m: int| 0 <= m < b.len() && b[m] == x;
                assert(m != 0);
                assert(b2[m - 1] == x);
            }
            if b2.contains(x) {
                let k = choose|k: int| 0 <= k < b2.len() && b2[k] == x;
                assert(b[k + 1] == x);
                assert(lex_lt(b[0], b[k + 1]));
                lemma_lex_irreflexive(b[0]);
                assert(a.contains(x));
                let m = choose|m: int| 0 <= m < a.len() && a[m] == x;
                assert(m != 0);
                assert(a2[m - 1] == x);
            }
        }
        assert forall|p: int, q: int| 0 <= p < q < a2.len() implies lex_lt(#[trigger] a2[p], #[trigger] a2[q]) by {
            assert(a2[p] == a[p + 1] && a2[q] == a[q + 1]);
        }
        assert forall|p: int, q: int| 0 <= p < q < b2.len() implies lex_lt(#[trigger] b2[p], #[trigger] b2[q]) by {
            assert(b2[p] == b[p + 1] && b2[q] == b[q + 1]);
        }
        lemma_sorted_unique(a2, b2);
        assert(a =~= seq![a[0]] + a2);
        assert(b =~= seq![b[0]] + b2);
    }
}

/// The strictly ascending list of the strings in `s`.
pub open spec fn sorted_list(s: Set<Seq<char>>) -> Seq<Seq<char>> {
    choose|l: Seq<Seq<char>>| strictly_sorted(l) && forall|x: Seq<char>| #[trigger] l.contains(x) <==> s.contains(x)
}

/// A strictly ascending list of exactly the strings in `s` is `sorted_list(s)`.
pub proof fn lemma_sorted_list(l: Seq<Seq<char>>, s: Set<Seq<char>>)
    requires
        strictly_sorted(l),
        forall|x: Seq<char>| #[trigger] l.contains(x) <==> s.contains(x),
    ensures
        sorted_list(s) == l,
{
    let c = sorted_list(s);
    assert(strictly_sorted(c) && forall|x: Seq<char>| #[trigger] c.contains(x) <==> s.contains(x));
    lemma_sorted_unique(c, l);
}

/// `l` with `x` put in its place (unless it is there already).
pub open spec fn sorted_insert(l: Seq<Seq<char>>, x: Seq<char>) -> Seq<Seq<char>>
    decreases l.len(),
{
    if l.len() == 0 {
        seq![x]
    } else if l[0] == x {
        l
    } else if lex_lt(x, l[0]) {
        seq![x] + l
    } else {
        seq![l[0]] + sorted_insert(l.drop_first(), x)
    }
}

proof fn lemma_sorted_cons(a: Seq<char>, m: Seq<Seq<char>>)
    requires
        strictly_sorted(m),
        forall|y: Seq<char>| #[trigger] m.contains(y) ==> lex_lt(a, y),
    ensures
        strictly_sorted(seq![a] + m),
{
    let r = seq![a] + m;
    assert forall|i: int, j: int| 0 <= i < j < r.len() implies lex_lt(#[trigger] r[i], #[trigger] r[j]) by {
        assert(r[j] == m[j - 1]);
        if i == 0 {
            assert(m.contains(m[j - 1]));
        } else {
            assert(r[i] == m[i - 1]);
        }
    }
}

proof fn lemma_sorted_insert(l: Seq<Seq<char>>, x: Seq<char>)
    requires
        strictly_sorted(l),
    ensures
        strictly_sorted(sorted_insert(l, x)),
        forall|y: Seq<char>| #[trigger] sorted_insert(l, x).contains(y) <==> (l.contains(y) || y == x),
    decreases l.len(),
{
    if l.len() == 0 {
        assert forall|y: Seq<char>| #[trigger] seq![x].contains(y) <==> (l.contains(y) || y == x) by {
            if y == x {
                assert(seq![x][0] == y);
            }
            if seq![x].contains(y) {
                let k = choose|k: int| 0 <= k < 1 && seq![x][k] == y;
                assert(k == 0);
            }
        }
    } else if l[0] == x {
    } else if lex_lt(x, l[0]) {
        assert forall|y: Seq<char>| #[trigger] l.contains(y) implies lex_lt(x, y) by {
            let k = choose|k: int| 0 <= k < l.len() && l[k] == y;
            if k > 0 {
                assert(lex_lt(l[0], l[k]));
                lemma_lex_transitive(x, l[0], y);
            }
        }
        lemma_sorted_cons(x, l);
        assert forall|y: Seq<char>| #[trigger] (seq![x] + l).contains(y) <==> (l.contains(y) || y == x) by {
            if (seq![x] + l).contains(y) {
                let k = choose|k: int| 0 <= k < (seq![x] + l).len() && (seq![x] + l)[k] == y;
                if k > 0 {
                    assert(l[k - 1] == y);
                }
            }
            if l.contains(y) {
                let k = choose|k: int| 0 <= k < l.len() && l[k] == y;
                assert((seq![x] + l)[k + 1] == y);
            }
            if y == x {
                assert((seq![x] + l)[0] == y);
            }
        }
    } else {
        let rest = l.drop_first();
        assert forall|p: int, q: int| 0 <= p < q < rest.len() implies lex_lt(#[trigger] rest[p], #[trigger] rest[q]) by {
            assert(rest[p] == l[p + 1] && rest[q] == l[q + 1]);
        }
        lemma_sorted_insert(rest, x);
        let m = sorted_insert(rest, x);
        lemma_lex_total(x, l[0]);
        assert forall|y: Seq<char>| #[trigger] m.contains(y) implies lex_lt(l[0], y) by {
            if rest.contains(y) {
                let k = choose|k: int| 0 <= k < rest.len() && rest[k] == y;
                assert(l[k + 1] == y);
                assert(lex_lt(l[0], l[k + 1]));
            }
        }
        lemma_sorted_cons(l[0], m);
        assert forall|y: Seq<char>| #[trigger] (seq![l[0]] + m).contains(y) <==> (l.contains(y) || y == x) by {
            if (seq![l[0]] + m).contains(y) {
                let k = choose|k: int| 0 <= k < (seq![l[0]] + m).len() && (seq![l[0]] + m)[k] == y;
                if k > 0 {
                    assert(m[k - 1] == y);
                    assert(m.contains(y));
                    assert(rest.contains(y) || y == x);
                    if rest.contains(y) {
                        let j = choose|j: int| 0 <= j < rest.len() && rest[j] == y;
                        assert(l[j + 1] == y);
                        assert(l.contains(y));
                    }
                } else {
                    assert(l[0] == y);
                    assert(l.contains(y));
                }
            }
            if l.contains(y) {
                let k = choose|k: int| 0 <= k < l.len() && l[k] == y;
                if k == 0 {
                    assert((seq![l[0]] + m)[0] == y);
                } else {
                    assert(rest[k - 1] == y);
                    assert(m.contains(y));
                    let j = choose|j: int| 0 <= j < m.len() && m[j] == y;
                    assert((seq![l[0]] + m)[j + 1] == y);
                }
            }
            if y == x {
                assert(m.contains(x));
                let j = choose|j: int| 0 <= j < m.len() && m[j] == x;
                assert((seq![l[0]] + m)[j + 1] == y);
            }
        }
    }
}

/// The strings of `s`, each once, in ascending order.
pub open spec fn sort_seq(s: Seq<Seq<char>>) -> Seq<Seq<char>>
    decreases s.len(),
{
    if s.len() == 0 {
        Seq::empty()
    } else {
        sorted_insert(sort_seq(s.drop_last()), s.last())
    }
}

/// Every list of strings has its strictly ascending list: `sorted_list`
/// of its entries holds exactly its entries.
pub proof fn lemma_sorted_exists(s: Seq<Seq<char>>)
    ensures
        strictly_sorted(sorted_list(s.to_set())),
        forall|x: Seq<char>| #[trigger] sorted_list(s.to_set()).contains(x) <==> s.contains(x),
    decreases s.len(),
{
    lemma_sort_seq(s);
    lemma_sorted_list(sort_seq(s), s.to_set());
}

proof fn lemma_sort_seq(s: Seq<Seq<char>>)
    ensures
        strictly_sorted(sort_seq(s)),
        forall|x: Seq<char>| #[trigger] sort_seq(s).contains(x) <==> s.contains(x),
    decreases s.len(),
{
    if s.len() == 0 {
    } else {
        lemma_sort_seq(s.drop_last());
        lemma_sorted_insert(sort_seq(s.drop_last()), s.last());
        assert forall|x: Seq<char>| #[trigger] sort_seq(s).contains(x) <==> s.contains(x) by {
            if s.drop_last().contains(x) {
                let k = choose|k: int| 0 <= k < s.drop_last().len() && s.drop_last()[k] == x;
                assert(s[k] == x);
            }
            if s.contains(x) {
                let k = choose|k: int| 0 <= k < s.len() && s[k] == x;
                if k < s.len() - 1 {
                    assert(s.drop_last()[k] == x);
                }
            }
        }
    }
}

fn lex_less(a: &Vec<char>, b: &Vec<char>) -> (res: bool)
    ensures
        res == lex_lt(a@, b@),
{
    let mut i: usize = 0;
    assert(a@.skip(0) =~= a@);
    assert(b@.skip(0) =~= b@);
    while i < a.len() && i < b.len() && a[i] == b[i]
        invariant
            i <= a.len(),
            i <= b.len(),
            lex_lt(a@, b@) == lex_lt(a@.skip(i as int), b@.skip(i as int)),
        decreases a.len() - i,
    {
        assert(a@.skip(i as int).drop_first() =~= a@.skip(i + 1));
        assert(b@.skip(i as int).drop_first() =~= b@.skip(i + 1));
        i = i + 1;
    }
    proof {
        if i < a.len() && i < b.len() {
            assert(a@.skip(i as int)[0] == a@[i as int]);
            assert(b@.skip(i as int)[0] == b@[i as int]);
            vstd::utf8::char_u32_cast(a@[i as int], a@[i as int] as u32);
            vstd::utf8::char_u32_cast(b@[i as int], b@[i as int] as u32);
        }
    }
    if i == a.len() {
        i < b.len()
    } else if i == b.len() {
        false
    } else {
        (a[i] as u32) < (b[i] as u32)
    }
}

/// Whether the string `a` orders before `b`.
pub fn string_less(a: &String, b: &String) -> (res: bool)
    ensures
        res == lex_lt(a@, b@),
{
    let ac = chars_of(a.as_str());
    let bc = chars_of(b.as_str());
    lex_less(&ac, &bc)
}

/// Puts `e` into the strictly sorted list `list`, unless it is already there.
pub fn insert_sorted(list: &mut Vec<String>, e: String)
    requires
        strictly_sorted(strs(old(list)@)),
    ensures
        strictly_sorted(strs(final(list)@)),
        forall|x: Seq<char>| #[trigger] strs(final(list)@).contains(x) <==> (strs(old(list)@).contains(x) || x
            == e@),
{
    let ghost old_s = strs(list@);
    let mut p: usize = 0;
    while p < list.len() && string_less(&list[p], &e)
        invariant
            p <= list.len(),
            strs(list@) == old_s,
            forall|k: int| 0 <= k < p ==> lex_lt(#[trigger] old_s[k], e@),
        decreases list.len() - p,
    {
        p = p + 1;
    }
    if p < list.len() && list[p] == e {
        assert(old_s.contains(e@) ==> true);
        assert(old_s[p as int] == e@);
        assert forall|x: Seq<char>| strs(list@).contains(x) <==> (old_s.contains(x) || x == e@) by {
            if x == e@ {
                assert(old_s[p as int] == x);
            }
        }
        return ;
    }
    proof {
        if p < list.len() {
            lemma_lex_total(old_s[p as int], e@);
        }
    }
    list.insert(p, e);
    let ghost new_s = strs(list@);
    assert(new_s =~= old_s.insert(p as int, e@));
    assert forall|i: int, j: int| 0 <= i < j < new_s.len() implies lex_lt(
        #[trigger] new_s[i],
        #[trigger] new_s[j],
    ) by {
        if j < p {
        } else if j == p {
            assert(new_s[i] == old_s[i]);
        } else if i < p {
            assert(new_s[j] == old_s[j - 1]);
            assert(new_s[i] == old_s[i]);
            if j - 1 > p {
                assert(lex_lt(old_s[p as int], old_s[j - 1]));
                lemma_lex_transitive(e@, old_s[p as int], old_s[j - 1]);
                lemma_lex_transitive(old_s[i], e@, old_s[j - 1]);
            } else {
                lemma_lex_transitive(old_s[i], e@, old_s[j - 1]);
            }
        } else if i == p {
            assert(new_s[j] == old_s[j - 1]);
            if j - 1 > p {
                assert(lex_lt(old_s[p as int], old_s[j - 1]));
                lemma_lex_transitive(e@, old_s[p as int], old_s[j - 1]);
            }
        } else {
            assert(new_s[j] == old_s[j - 1]);
            assert(new_s[i] == old_s[i - 1]);
        }
    }
    assert forall|x: Seq<char>| new_s.contains(x) <==> (old_s.contains(x) || x == e@) by {
        if old_s.contains(x) {
            let k = choose|k: int| 0 <= k < old_s.len() && old_s[k] == x;
            if k < p {
                assert(new_s[k] == x);
            } else {
                assert(new_s[k + 1] == x);
            }
        }
        if x == e@ {
            assert(new_s[p as int] == x);
        }
        if new_s.contains(x) {
            let k = choose|k: int| 0 <= k < new_s.len() && new_s[k] == x;
            if k < p {
                assert(old_s[k] == x);
            } else if k > p {
                assert(old_s[k - 1] == x);
            }
        }
    }
}

/// Appends `e` to `list` unless it is already there.
pub fn push_unique(list: &mut Vec<String>, e: String)
    requires
        strs(old(list)@).no_duplicates(),
    ensures
        strs(final(list)@).no_duplicates(),
        forall|x: Seq<char>| #[trigger] strs(final(list)@).contains(x) <==> (strs(old(list)@).contains(x) || x
            == e@),
        strs(final(list)@) == (if strs(old(list)@).contains(e@) {
            strs(old(list)@)
        } else {
            strs(old(list)@).push(e@)
        }),
{
    let ghost old_s = strs(list@);
    let mut i: usize = 0;
    while i < list.len()
        invariant
            i <= list.len(),
            strs(list@) == old_s,
            old_s == strs(old(list)@),
            old_s.no_duplicates(),
            forall|k: int| 0 <= k < i ==> old_s[k] != e@,
        decreases list.len() - i,
    {
        if list[i] == e {
            assert(old_s[i as int] == e@);
            return ;
        }
        i = i + 1;
    }
    assert(!old_s.contains(e@));
    list.push(e);
    assert(strs(list@) =~= old_s.push(e@));
    assert forall|x: Seq<char>| strs(list@).contains(x) <==> (old_s.contains(x) || x == e@) by {
        if old_s.contains(x) {
            let k = choose|k: int| 0 <= k < old_s.len() && old_s[k] == x;
            assert(strs(list@)[k] == x);
        }
        if x == e@ {
            assert(strs(list@)[old_s.len() as int] == x);
        }
    }
}

} // verus!
