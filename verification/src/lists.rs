use vstd::prelude::*;
use crate::text::{texts, text_lt, text_le, text_less, text_order_is_strict_total};

verus! {

/// `s` with every element dropped that occurs earlier in `s`: the first
/// occurrences, in their order.
pub open spec fn first_occurrences(s: Seq<Seq<char>>) -> Seq<Seq<char>>
    decreases s.len(),
{
    if s.len() == 0 {
        seq![]
    } else if s.drop_last().contains(s.last()) {
        first_occurrences(s.drop_last())
    } else {
        first_occurrences(s.drop_last()).push(s.last())
    }
}

/// Whether no element occurs twice in `s`.
pub open spec fn no_repeats(s: Seq<Seq<char>>) -> bool {
    forall|i: int, j: int| 0 <= i < j < s.len() ==> s[i] != s[j]
}

/// Whether `s` is in ascending order of `str`'s `Ord`.
pub open spec fn is_sorted(s: Seq<Seq<char>>) -> bool {
    forall|i: int, j: int| 0 <= i < j < s.len() ==> text_le(s[i], s[j])
}

/// Whether `s` is in strictly ascending order of `str`'s `Ord`.
pub open spec fn is_strictly_sorted(s: Seq<Seq<char>>) -> bool {
    forall|i: int, j: int| 0 <= i < j < s.len() ==> text_lt(s[i], s[j])
}

/// The position where `x` goes into the ascending `s`: before the first
/// element that comes after `x`.
pub open spec fn insertion_point(s: Seq<Seq<char>>, x: Seq<char>) -> int
    decreases s.len(),
{
    if s.len() == 0 {
        0
    } else if text_lt(x, s[0]) {
        0
    } else {
        1 + insertion_point(s.drop_first(), x)
    }
}

/// `s` in ascending order, built by inserting its elements one after another.
pub open spec fn sorted_texts(s: Seq<Seq<char>>) -> Seq<Seq<char>>
    decreases s.len(),
{
    if s.len() == 0 {
        seq![]
    } else {
        let t = sorted_texts(s.drop_last());
        t.insert(insertion_point(t, s.last()), s.last())
    }
}

proof fn lemma_first_occurrences_contains(s: Seq<Seq<char>>, x: Seq<char>)
    ensures
        first_occurrences(s).contains(x) <==> s.contains(x),
    decreases s.len(),
{
    if s.len() > 0 {
        lemma_first_occurrences_contains(s.drop_last(), x);
        let d = first_occurrences(s.drop_last());
        if s.contains(x) {
            let k = choose|k: int| 0 <= k < s.len() && s[k] == x;
            if k < s.len() - 1 {
                assert(s.drop_last()[k] == x);
            }
        }
        if s.drop_last().contains(x) {
            let k = choose|k: int| 0 <= k < s.drop_last().len() && s.drop_last()[k] == x;
            assert(s[k] == x);
        }
        if !s.drop_last().contains(s.last()) {
            assert(d.push(s.last()).last() == s.last());
            if d.contains(x) {
                let k = choose|k: int| 0 <= k < d.len() && d[k] == x;
                assert(d.push(s.last())[k] == x);
            }
            if d.push(s.last()).contains(x) {
                let k = choose|k: int| 0 <= k < d.len() + 1 && d.push(s.last())[k] == x;
                if k < d.len() {
                    assert(d[k] == x);
                }
            }
        }
    }
}

proof fn lemma_first_occurrences_no_repeats(s: Seq<Seq<char>>)
    ensures
        no_repeats(first_occurrences(s)),
    decreases s.len(),
{
    if s.len() > 0 {
        lemma_first_occurrences_no_repeats(s.drop_last());
        lemma_first_occurrences_contains(s.drop_last(), s.last());
        let d = first_occurrences(s.drop_last());
        if !s.drop_last().contains(s.last()) {
            let e = d.push(s.last());
            assert forall|i: int, j: int| 0 <= i < j < e.len() implies e[i] != e[j] by {
                if j == d.len() {
                    assert(e[i] == d[i]);
                    if e[i] == e[j] {
                        assert(d.contains(s.last()));
                    }
                } else {
                    assert(e[i] == d[i] && e[j] == d[j]);
                }
            }
        }
    }
}

/// Dropping repeats keeps exactly the elements of `s`, keeps none twice, and
/// dropping them again changes nothing.
pub proof fn first_occurrences_laws(s: Seq<Seq<char>>)
    ensures
        forall|x: Seq<char>| first_occurrences(s).contains(x) <==> s.contains(x),
        no_repeats(first_occurrences(s)),
        first_occurrences(first_occurrences(s)) == first_occurrences(s),
{
    assert forall|x: Seq<char>| first_occurrences(s).contains(x) <==> s.contains(x) by {
        lemma_first_occurrences_contains(s, x);
    }
    lemma_first_occurrences_no_repeats(s);
    lemma_no_repeats_fixed(first_occurrences(s));
}

proof fn lemma_no_repeats_fixed(s: Seq<Seq<char>>)
    requires
        no_repeats(s),
    ensures
        first_occurrences(s) == s,
    decreases s.len(),
{
    if s.len() > 0 {
        let p = s.drop_last();
        assert(no_repeats(p)) by {
            assert forall|i: int, j: int| 0 <= i < j < p.len() implies p[i] != p[j] by {
                assert(p[i] == s[i] && p[j] == s[j]);
            }
        }
        lemma_no_repeats_fixed(p);
        if p.contains(s.last()) {
            let k = choose|k: int| 0 <= k < p.len() && p[k] == s.last();
            assert(s[k] == s[s.len() - 1]);
        }
        assert(p.push(s.last()) =~= s);
    }
}

/// Drops every string that equals an earlier one, keeping the first
/// occurrences in their order.
pub fn dedupe_preserve_order(values: &mut Vec<String>)
    ensures
        texts(final(values)@) == first_occurrences(texts(old(values)@)),
{
    let ghost all = texts(values@);
    let n = values.len();
    let mut kept: Vec<String> = Vec::new();
    let mut i: usize = 0;
    assert(all.take(0) =~= Seq::<Seq<char>>::empty());
    assert(texts(kept@) =~= Seq::<Seq<char>>::empty());
    while i < n
        invariant
            i <= n,
            n == values@.len(),
            all == texts(values@),
            texts(kept@) == first_occurrences(all.take(i as int)),
        decreases n - i,
    {
        let v = &values[i];
        let mut seen = false;
        let mut k: usize = 0;
        while k < kept.len()
            invariant
                k <= kept@.len(),
                seen == exists|t: int| 0 <= t < k && kept@[t]@ == v@,
            decreases kept@.len() - k,
        {
            if kept[k] == *v {
                seen = true;
            }
            k = k + 1;
        }
        proof {
            let d = texts(kept@);
            let p = all.take(i + 1);
            assert(p.drop_last() =~= all.take(i as int));
            assert(p.last() == v@);
            lemma_first_occurrences_contains(all.take(i as int), v@);
            if seen {
                let t = choose|t: int| 0 <= t < kept@.len() && kept@[t]@ == v@;
                assert(d[t] == v@);
            }
            if d.contains(v@) {
                let t = choose|t: int| 0 <= t < d.len() && d[t] == v@;
                assert(kept@[t]@ == v@);
            }
        }
        if !seen {
            kept.push(v.clone());
            assert(texts(kept@) =~= first_occurrences(all.take(i as int)).push(v@));
        }
        i = i + 1;
    }
    assert(all.take(n as int) =~= all);
    *values = kept;
}

proof fn lemma_insertion_point(s: Seq<Seq<char>>, x: Seq<char>)
    ensures
        0 <= insertion_point(s, x) <= s.len(),
        forall|k: int| 0 <= k < insertion_point(s, x) ==> !text_lt(x, #[trigger] s[k]),
        insertion_point(s, x) < s.len() ==> text_lt(x, s[insertion_point(s, x)]),
    decreases s.len(),
{
    if s.len() > 0 && !text_lt(x, s[0]) {
        lemma_insertion_point(s.drop_first(), x);
        assert forall|k: int| 0 <= k < insertion_point(s, x) implies !text_lt(x, #[trigger] s[k]) by {
            if k > 0 {
                assert(s[k] == s.drop_first()[k - 1]);
            }
        }
    }
}

proof fn lemma_insert_keeps_sorted(s: Seq<Seq<char>>, x: Seq<char>)
    requires
        is_sorted(s),
    ensures
        is_sorted(s.insert(insertion_point(s, x), x)),
{
    lemma_insertion_point(s, x);
    let p = insertion_point(s, x);
    let t = s.insert(p, x);
    assert forall|i: int, j: int| 0 <= i < j < t.len() implies text_le(t[i], t[j]) by {
        if j < p {
            assert(t[i] == s[i] && t[j] == s[j]);
        } else if j == p {
            assert(t[i] == s[i] && t[j] == x);
            text_order_is_strict_total(s[i], x, x);
        } else if i == p {
            assert(t[j] == s[j - 1]);
            assert(text_le(s[p], s[j - 1]));
            text_order_is_strict_total(x, s[p], s[j - 1]);
        } else if i < p {
            assert(t[i] == s[i] && t[j] == s[j - 1]);
        } else {
            assert(t[i] == s[i - 1] && t[j] == s[j - 1]);
        }
    }
}

/// Sorting puts the texts in ascending order and keeps each of them as often
/// as it occurs.
pub proof fn sorted_texts_laws(s: Seq<Seq<char>>)
    ensures
        is_sorted(sorted_texts(s)),
        sorted_texts(s).to_multiset() == s.to_multiset(),
    decreases s.len(),
{
    broadcast use vstd::seq_lib::group_to_multiset_ensures;

    if s.len() > 0 {
        let t = sorted_texts(s.drop_last());
        sorted_texts_laws(s.drop_last());
        lemma_insertion_point(t, s.last());
        lemma_insert_keeps_sorted(t, s.last());
        vstd::seq_lib::to_multiset_insert(t, insertion_point(t, s.last()), s.last());
        assert(s.drop_last().push(s.last()) =~= s);
    } else {
        assert(sorted_texts(s).to_multiset() =~= s.to_multiset());
    }
}

/// The list that is written out for an asset, the collected addresses
/// without repeats and sorted, is in strictly ascending order and holds
/// exactly the addresses that were collected.
pub proof fn sorted_first_occurrences_laws(s: Seq<Seq<char>>)
    ensures
        is_strictly_sorted(sorted_texts(first_occurrences(s))),
        forall|x: Seq<char>| sorted_texts(first_occurrences(s)).contains(x) <==> s.contains(x),
{
    broadcast use vstd::seq_lib::group_to_multiset_ensures;

    let d = first_occurrences(s);
    let t = sorted_texts(d);
    first_occurrences_laws(s);
    sorted_texts_laws(d);
    assert(d.no_duplicates());
    d.lemma_multiset_has_no_duplicates();
    t.lemma_multiset_has_no_duplicates_conv();
    assert forall|i: int, j: int| 0 <= i < j < t.len() implies text_lt(t[i], t[j]) by {
        assert(t.no_duplicates());
        assert(t[i] != t[j]);
        assert(text_le(t[i], t[j]));
    }
    assert forall|x: Seq<char>| t.contains(x) <==> s.contains(x) by {
        assert(t.contains(x) <==> t.to_multiset().count(x) > 0);
        assert(d.contains(x) <==> d.to_multiset().count(x) > 0);
    }
}

/// Sorts the strings in ascending order of `str`'s `Ord`.
pub fn sort_addresses(values: &mut Vec<String>)
    ensures
        texts(final(values)@) == sorted_texts(texts(old(values)@)),
{
    let ghost all = texts(values@);
    let n = values.len();
    let mut out: Vec<String> = Vec::new();
    let mut i: usize = 0;
    assert(all.take(0) =~= Seq::<Seq<char>>::empty());
    assert(texts(out@) =~= Seq::<Seq<char>>::empty());
    while i < n
        invariant
            i <= n,
            n == values@.len(),
            all == texts(values@),
            texts(out@) == sorted_texts(all.take(i as int)),
        decreases n - i,
    {
        let x = values[i].clone();
        let ghost t = texts(out@);
        let mut p: usize = 0;
        assert(t.skip(0) =~= t);
        while p < out.len() && !text_less(x.as_str(), out[p].as_str())
            invariant
                p <= out@.len(),
                t == texts(out@),
                insertion_point(t, x@) == p + insertion_point(t.skip(p as int), x@),
            decreases out@.len() - p,
        {
            assert(t.skip(p as int)[0] == t[p as int]);
            assert(t.skip(p as int).drop_first() =~= t.skip(p + 1));
            p = p + 1;
        }
        proof {
            if p < out@.len() {
                assert(t.skip(p as int)[0] == t[p as int]);
            }
        }
        out.insert(p, x);
        assert(all.take(i + 1).drop_last() =~= all.take(i as int));
        assert(texts(out@) =~= t.insert(p as int, all[i as int]));
        i = i + 1;
    }
    assert(all.take(n as int) =~= all);
    *values = out;
}

proof fn lemma_insertion_point_at_end(s: Seq<Seq<char>>, x: Seq<char>)
    requires
        forall|k: int| 0 <= k < s.len() ==> !text_lt(x, #[trigger] s[k]),
    ensures
        insertion_point(s, x) == s.len(),
    decreases s.len(),
{
    if s.len() > 0 {
        assert(!text_lt(x, s[0]));
        assert forall|k: int| 0 <= k < s.drop_first().len() implies !text_lt(
            x,
            #[trigger] s.drop_first()[k],
        ) by {
            assert(s.drop_first()[k] == s[k + 1]);
        }
        lemma_insertion_point_at_end(s.drop_first(), x);
    }
}

proof fn lemma_sorted_list_is_fixed(s: Seq<Seq<char>>)
    requires
        is_sorted(s),
    ensures
        sorted_texts(s) == s,
    decreases s.len(),
{
    if s.len() > 0 {
        let p = s.drop_last();
        assert(is_sorted(p)) by {
            assert forall|i: int, j: int| 0 <= i < j < p.len() implies text_le(p[i], p[j]) by {
                assert(p[i] == s[i] && p[j] == s[j]);
            }
        }
        lemma_sorted_list_is_fixed(p);
        assert forall|k: int| 0 <= k < p.len() implies !text_lt(s.last(), #[trigger] p[k]) by {
            assert(p[k] == s[k]);
            assert(text_le(s[k], s[s.len() - 1]));
            text_order_is_strict_total(s[k], s.last(), s[k]);
        }
        lemma_insertion_point_at_end(p, s.last());
        assert(p.insert(p.len() as int, s.last()) =~= s);
    } else {
        assert(sorted_texts(s) =~= s);
    }
}

/// Sorting a list that is already in ascending order leaves it as it is, so
/// sorting twice gives what sorting once gives.
pub proof fn sorting_sorted_list_changes_nothing(s: Seq<Seq<char>>)
    ensures
        is_sorted(s) ==> sorted_texts(s) == s,
        sorted_texts(sorted_texts(s)) == sorted_texts(s),
{
    if is_sorted(s) {
        lemma_sorted_list_is_fixed(s);
    }
    sorted_texts_laws(s);
    lemma_sorted_list_is_fixed(sorted_texts(s));
}

} // verus!
