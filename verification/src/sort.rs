//! Sorting and deduplicating strings in the order `String` compares them.
use vstd::prelude::*;

use crate::map::{lemma_seq_lt_asymmetric, lemma_seq_lt_irreflexive, lemma_seq_lt_total, lemma_seq_lt_transitive, order_chars, seq_lt, KeyOrder};
use crate::text::chars_of;

verus! {

broadcast use vstd::seq_lib::group_to_multiset_ensures;

/// The views of a vector of strings.
pub open spec fn strings_view(v: Seq<String>) -> Seq<Seq<char>> {
    v.map_values(|s: String| s@)
}

/// In nondecreasing order.
pub open spec fn sorted_seqs(s: Seq<Seq<char>>) -> bool {
    forall|i: int, j: int| 0 <= i < j < s.len() ==> !seq_lt(#[trigger] s[j], #[trigger] s[i])
}

/// In strictly increasing order, hence each element once.
pub open spec fn strictly_sorted_seqs(s: Seq<Seq<char>>) -> bool {
    forall|i: int, j: int| 0 <= i < j < s.len() ==> seq_lt(#[trigger] s[i], #[trigger] s[j])
}

/// Whether `a` comes before `b`.
fn less(a: &String, b: &String) -> (r: bool)
    ensures
        r == seq_lt(a@, b@),
{
    let x = chars_of(a.as_str());
    let y = chars_of(b.as_str());
    match order_chars(x.as_slice(), y.as_slice()) {
        KeyOrder::Less => true,
        KeyOrder::Equal => {
            proof {
                lemma_seq_lt_irreflexive(a@);
            }
            false
        },
        KeyOrder::Greater => {
            proof {
                lemma_seq_lt_asymmetric(b@, a@);
            }
            false
        },
    }
}

/// The strings of `v` in nondecreasing order.
pub fn sort_strings(v: Vec<String>) -> (r: Vec<String>)
    ensures
        sorted_seqs(strings_view(r@)),
        strings_view(r@).to_multiset() == strings_view(v@).to_multiset(),
{
    let mut r: Vec<String> = Vec::new();
    let mut i: usize = 0;
    assert(strings_view(v@).take(0) =~= Seq::<Seq<char>>::empty());
    assert(strings_view(r@) =~= Seq::<Seq<char>>::empty());
    while i < v.len()
        invariant
            i <= v@.len(),
            sorted_seqs(strings_view(r@)),
            strings_view(r@).to_multiset() == strings_view(v@).take(i as int).to_multiset(),
        decreases v@.len() - i,
    {
        let s = v[i].clone();
        let ghost sv = s@;
        let ghost before = strings_view(r@);
        let mut p: usize = 0;
        while p < r.len() && !less(&s, &r[p])
            invariant
                p <= r@.len(),
                before == strings_view(r@),
                sv == s@,
                forall|q: int| 0 <= q < p ==> !seq_lt(sv, #[trigger] before[q]),
            decreases r@.len() - p,
        {
            p += 1;
        }
        r.insert(p, s);
        proof {
            let after = strings_view(r@);
            assert(after =~= before.insert(p as int, sv));
            assert forall|a: int, b: int| 0 <= a < b < after.len() implies !seq_lt(#[trigger] after[b], #[trigger] after[a]) by {
                if b == p {
                    assert(after[a] == before[a]);
                    assert(!seq_lt(sv, before[a]));
                    if seq_lt(sv, before[a]) {}
                    if seq_lt(after[b], after[a]) {
                        assert(seq_lt(sv, before[a]));
                    }
                } else if a == p {
                    assert(after[b] == before[b - 1]);
                    if p < before.len() {
                        assert(seq_lt(sv, before[p as int]));
                        if b - 1 > p {
                            assert(!seq_lt(before[b - 1], before[p as int]));
                            if seq_lt(before[b - 1], sv) {
                                lemma_seq_lt_transitive(before[b - 1], sv, before[p as int]);
                            }
                        } else {
                            lemma_seq_lt_asymmetric(sv, before[p as int]);
                        }
                    }
                } else if a < p && b < p {
                    assert(after[a] == before[a] && after[b] == before[b]);
                } else if a < p && b > p {
                    assert(after[a] == before[a] && after[b] == before[b - 1]);
                } else {
                    assert(after[a] == before[a - 1] && after[b] == before[b - 1]);
                }
            }
            assert(strings_view(v@).take(i + 1) =~= strings_view(v@).take(i as int).push(sv));
            assert(after.to_multiset() == before.to_multiset().insert(sv));
        }
        i += 1;
    }
    assert(strings_view(v@).take(v@.len() as int) =~= strings_view(v@));
    r
}

/// The distinct strings of `v` in increasing order.
pub fn sorted_unique_strings(v: Vec<String>) -> (r: Vec<String>)
    ensures
        strictly_sorted_seqs(strings_view(r@)),
        strings_view(r@).to_set() == strings_view(v@).to_set(),
{
    let sorted = sort_strings(v);
    let ghost sv = strings_view(sorted@);
    proof {
        assert forall|x: Seq<char>| sv.contains(x) <==> strings_view(v@).contains(x) by {
            if sv.contains(x) {
                assert(sv.to_multiset().count(x) > 0);
            }
            if strings_view(v@).contains(x) {
                assert(strings_view(v@).to_multiset().count(x) > 0);
            }
        }
    }
    let mut r: Vec<String> = Vec::new();
    let mut i: usize = 0;
    while i < sorted.len()
        invariant
            i <= sorted@.len(),
            sv == strings_view(sorted@),
            sorted_seqs(sv),
            strictly_sorted_seqs(strings_view(r@)),
            strings_view(r@).to_set() == sv.take(i as int).to_set(),
            i > 0 ==> r@.len() > 0 && strings_view(r@).last() == sv[i - 1],
            r@.len() <= i,
        decreases sorted@.len() - i,
    {
        let s = &sorted[i];
        let ghost before = strings_view(r@);
        if r.len() == 0 || *s != r[r.len() - 1] {
            r.push(s.clone());
            proof {
                let after = strings_view(r@);
                assert(after =~= before.push(sv[i as int]));
                if before.len() > 0 {
                    assert(!seq_lt(sv[i as int], sv[i - 1]));
                    lemma_seq_lt_total(sv[i as int], sv[i - 1]);
                    assert(seq_lt(before.last(), sv[i as int]));
                    assert forall|a: int, b: int| 0 <= a < b < after.len() implies seq_lt(#[trigger] after[a], #[trigger] after[b]) by {
                        if b == after.len() - 1 && a < before.len() - 1 {
                            lemma_seq_lt_transitive(before[a], before.last(), sv[i as int]);
                        }
                    }
                }
                assert(sv.take(i + 1) =~= sv.take(i as int).push(sv[i as int]));
                before.lemma_push_to_set_commute(sv[i as int]);
                sv.take(i as int).lemma_push_to_set_commute(sv[i as int]);
            }
        } else {
            proof {
                assert(sv.take(i + 1) =~= sv.take(i as int).push(sv[i as int]));
                sv.take(i as int).lemma_push_to_set_commute(sv[i as int]);
                assert(before.to_set().contains(sv[i as int])) by {
                    assert(before[before.len() - 1] == sv[i as int]);
                    assert(before.contains(sv[i as int]));
                }
                assert(sv.take(i as int).to_set().insert(sv[i as int]) =~= sv.take(i as int).to_set());
            }
        }
        i += 1;
    }
    assert(sv.take(sv.len() as int) =~= sv);
    proof {
        assert(sv.to_set() =~= strings_view(v@).to_set());
    }
    r
}

/// Two strictly increasing sequences holding the same elements are the same
/// sequence: a sorted, deduplicated result depends only on the set sorted.
pub proof fn lemma_strictly_sorted_unique(a: Seq<Seq<char>>, b: Seq<Seq<char>>)
    requires
        strictly_sorted_seqs(a),
        strictly_sorted_seqs(b),
        a.to_set() == b.to_set(),
    ensures
        a == b,
    decreases a.len(),
{
    if a.len() == 0 {
        if b.len() > 0 {
            assert(b.to_set().contains(b[0]));
        }
        assert(a =~= b);
    } else if b.len() == 0 {
        assert(a.to_set().contains(a[0]));
    } else {
        // The smallest elements agree.
        assert(a.to_set().contains(a[0]) && b.to_set().contains(b[0]));
        assert(b.contains(a[0]));
        assert(a.contains(b[0]));
        let i = choose|i: int| 0 <= i < b.len() && b[i] == a[0];
        let j = choose|j: int| 0 <= j < a.len() && a[j] == b[0];
        if i > 0 {
            assert(seq_lt(b[0], b[i]));
            if j > 0 {
                assert(seq_lt(a[0], a[j]));
                lemma_seq_lt_asymmetric(a[0], b[0]);
            } else {
                lemma_seq_lt_irreflexive(a[0]);
            }
        }
        assert(a[0] == b[0]);
        let ra = a.skip(1);
        let rb = b.skip(1);
        assert forall|x: Seq<char>| ra.to_set().contains(x) <==> rb.to_set().contains(x) by {
            if ra.contains(x) {
                let k = choose|k: int| 0 <= k < ra.len() && #[trigger] ra[k] == x;
                assert(a[k + 1] == x);
                assert(seq_lt(a[0], x));
                assert(a.contains(x));
                assert(a.to_set().contains(x));
                assert(b.to_set().contains(x));
                assert(b.contains(x));
                let m = choose|m: int| 0 <= m < b.len() && #[trigger] b[m] == x;
                if m == 0 {
                    lemma_seq_lt_irreflexive(x);
                }
                assert(rb[m - 1] == x);
            }
            if rb.contains(x) {
                let k = choose|k: int| 0 <= k < rb.len() && #[trigger] rb[k] == x;
                assert(b[k + 1] == x);
                assert(seq_lt(b[0], x));
                assert(b.contains(x));
                assert(b.to_set().contains(x));
                assert(a.to_set().contains(x));
                assert(a.contains(x));
                let m = choose|m: int| 0 <= m < a.len() && #[trigger] a[m] == x;
                if m == 0 {
                    lemma_seq_lt_irreflexive(x);
                }
                assert(ra[m - 1] == x);
            }
        }
        assert(ra.to_set() =~= rb.to_set());
        assert forall|p: int, q: int| 0 <= p < q < ra.len() implies seq_lt(#[trigger] ra[p], #[trigger] ra[q]) by {
            assert(ra[p] == a[p + 1] && ra[q] == a[q + 1]);
        }
        assert forall|p: int, q: int| 0 <= p < q < rb.len() implies seq_lt(#[trigger] rb[p], #[trigger] rb[q]) by {
            assert(rb[p] == b[p + 1] && rb[q] == b[q + 1]);
        }
        lemma_strictly_sorted_unique(ra, rb);
        assert(a =~= seq![a[0]] + ra);
        assert(b =~= seq![b[0]] + rb);
    }
}

} // verus!
