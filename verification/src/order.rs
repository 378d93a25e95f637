//! The lexicographic order of texts, by code point.

use vstd::prelude::*;

verus! {

/// Whether `a` comes before `b`, judged from position `i` on.
pub open spec fn less_from(a: Seq<char>, b: Seq<char>, i: int) -> bool
    decreases b.len() - i,
{
    if i >= b.len() {
        false
    } else if i >= a.len() {
        true
    } else if a[i] != b[i] {
        a[i] < b[i]
    } else {
        less_from(a, b, i + 1)
    }
}

/// Whether `a` comes before `b`: at the first position at which they differ it has the smaller
/// character, or it ends there.
pub open spec fn less(a: Seq<char>, b: Seq<char>) -> bool {
    less_from(a, b, 0)
}

/// Whether each text comes before all that follow it.
pub open spec fn increasing(s: Seq<Seq<char>>) -> bool {
    forall|i: int, j: int| 0 <= i < j < s.len() ==> less(#[trigger] s[i], #[trigger] s[j])
}

/// How one text stands to another.
#[derive(Clone, Copy, Debug, PartialEq, Eq, Structural)]
pub enum Place {
    Before,
    Same,
    After,
}

proof fn lemma_less_from_irreflexive(a: Seq<char>, i: int)
    ensures
        !less_from(a, a, i),
    decreases a.len() - i,
{
    if i < a.len() {
        lemma_less_from_irreflexive(a, i + 1);
    }
}

proof fn lemma_less_from_transitive(a: Seq<char>, b: Seq<char>, c: Seq<char>, i: int)
    requires
        less_from(a, b, i),
        less_from(b, c, i),
    ensures
        less_from(a, c, i),
    decreases b.len() - i,
{
    if i < a.len() && a[i] == b[i] && b[i] == c[i] {
        lemma_less_from_transitive(a, b, c, i + 1);
    }
}

proof fn lemma_less_from_total(a: Seq<char>, b: Seq<char>, i: int)
    requires
        0 <= i <= a.len(),
        i <= b.len(),
        !less_from(a, b, i),
        !less_from(b, a, i),
    ensures
        a.len() == b.len(),
        forall|k: int| i <= k < a.len() ==> a[k] == b[k],
    decreases b.len() - i,
{
    if i < a.len() && i < b.len() {
        lemma_less_from_total(a, b, i + 1);
    }
}

/// No text comes before itself, and no two texts before each other.
pub proof fn lemma_less_asymmetric(a: Seq<char>, b: Seq<char>)
    requires
        less(a, b),
    ensures
        a != b,
        !less(b, a),
{
    lemma_less_from_irreflexive(a, 0);
    if less(b, a) {
        lemma_less_from_transitive(a, b, a, 0);
    }
}

/// The order is transitive.
pub proof fn lemma_less_transitive(a: Seq<char>, b: Seq<char>, c: Seq<char>)
    requires
        less(a, b),
        less(b, c),
    ensures
        less(a, c),
{
    lemma_less_from_transitive(a, b, c, 0);
}

/// Of two different texts one comes before the other.
pub proof fn lemma_less_total(a: Seq<char>, b: Seq<char>)
    ensures
        less(a, b) || a == b || less(b, a),
{
    if !less(a, b) && !less(b, a) {
        lemma_less_from_total(a, b, 0);
        assert(a =~= b);
    }
}

/// Two increasing rows of the same texts are the same row.
pub proof fn lemma_increasing_unique(s: Seq<Seq<char>>, t: Seq<Seq<char>>)
    requires
        increasing(s),
        increasing(t),
        forall|x: Seq<char>| s.contains(x) <==> t.contains(x),
    ensures
        s == t,
    decreases s.len(),
{
    if s.len() == 0 {
        if t.len() > 0 {
            assert(t.contains(t[0]));
            assert(s.contains(t[0]));
        }
        assert(s =~= t);
    } else {
        assert(s.contains(s.last()));
        assert(t.contains(s.last()));
        assert(t.contains(t.last()));
        assert(s.contains(t.last()));
        let i = choose|i: int| 0 <= i < s.len() && s[i] == t.last();
        let j = choose|j: int| 0 <= j < t.len() && t[j] == s.last();
        if s.last() != t.last() {
            assert(less(s[i], s[s.len() - 1]));
            assert(less(t[j], t[t.len() - 1]));
            lemma_less_asymmetric(s.last(), t.last());
        }
        let s1 = s.drop_last();
        let t1 = t.drop_last();
        assert forall|x: Seq<char>| s1.contains(x) <==> t1.contains(x) by {
            if s1.contains(x) {
                let k = choose|k: int| 0 <= k < s1.len() && s1[k] == x;
                assert(less(s[k], s[s.len() - 1]));
                lemma_less_asymmetric(x, s.last());
                assert(s[k] == x);
                assert(t.contains(x));
                let m = choose|m: int| 0 <= m < t.len() && t[m] == x;
                assert(t1[m] == x);
            }
            if t1.contains(x) {
                let k = choose|k: int| 0 <= k < t1.len() && t1[k] == x;
                assert(less(t[k], t[t.len() - 1]));
                lemma_less_asymmetric(x, t.last());
                assert(t[k] == x);
                assert(s.contains(x));
                let m = choose|m: int| 0 <= m < s.len() && s[m] == x;
                assert(s1[m] == x);
            }
        }
        lemma_increasing_unique(s1, t1);
        assert(s =~= s1.push(s.last()));
        assert(t =~= t1.push(t.last()));
    }
}

/// How `a` stands to `b`.
pub fn compare(a: &[char], b: &[char]) -> (r: Place)
    ensures
        r == Place::Before <==> less(a@, b@),
        r == Place::Same <==> a@ == b@,
        r == Place::After <==> less(b@, a@),
{
    let mut i: usize = 0;
    while i < a.len() && i < b.len() && a[i] == b[i]
        invariant
            i <= a.len(),
            i <= b.len(),
            forall|k: int| 0 <= k < i ==> a@[k] == b@[k],
            less(a@, b@) == less_from(a@, b@, i as int),
            less(b@, a@) == less_from(b@, a@, i as int),
        decreases a.len() - i,
    {
        i += 1;
    }
    if i >= b.len() {
        if i >= a.len() {
            assert(a@ =~= b@);
            Place::Same
        } else {
            Place::After
        }
    } else if i >= a.len() {
        Place::Before
    } else if a[i] < b[i] {
        Place::Before
    } else {
        Place::After
    }
}

/// Where two texts agree up to a character, the smaller character decides, whatever follows; and a
/// text comes before its continuations.
pub proof fn law_first_difference_decides(p: Seq<char>, a: char, x: Seq<char>, b: char, y: Seq<char>)
    ensures
        a < b ==> less(p + seq![a] + x, p + seq![b] + y),
        less(p, p + seq![a] + x),
        !less(p, p),
{
    lemma_agree_up_to(p + seq![a] + x, p + seq![b] + y, p.len() as int, 0);
    lemma_agree_up_to(p, p + seq![a] + x, p.len() as int, 0);
    lemma_less_from_irreflexive(p, 0);
}

proof fn lemma_agree_up_to(s: Seq<char>, t: Seq<char>, n: int, i: int)
    requires
        0 <= i <= n <= s.len(),
        n <= t.len(),
        forall|k: int| 0 <= k < n ==> s[k] == t[k],
    ensures
        less_from(s, t, i) == less_from(s, t, n),
    decreases n - i,
{
    if i < n {
        lemma_agree_up_to(s, t, n, i + 1);
    }
}

} // verus!
