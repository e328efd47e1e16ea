//! Combining an application name with a set of labels into one profile key.
use std::collections::HashMap;
use vstd::prelude::*;
use vstd::seq_lib::{lemma_multiset_commutative, to_multiset_len};
use vstd::string::StringExecFns;

use crate::error::BackendError;
use crate::text::{is_sorted_permutation, join, lemma_sorted_permutation_unique, sort_strings, texts_of};

verus! {

/// The label key that is never rendered.
pub open spec fn reserved_key() -> Seq<char> {
    seq!['_', '_', 'n', 'a', 'm', 'e', '_', '_']
}

/// `p` lists the entries of `m`, each exactly once, in some order.
pub open spec fn is_listing(p: Seq<(String, String)>, m: Map<String, String>) -> bool {
    &&& forall|i: int| 0 <= i < p.len() ==> #[trigger] m.contains_key(p[i].0) && m[p[i].0] == p[i].1
    &&& forall|k: String| #[trigger] m.contains_key(k) ==> exists|i: int| 0 <= i < p.len() && p[i].0 == k
    &&& forall|i: int, j: int| 0 <= i < j < p.len() ==> p[i].0 != p[j].0
}

/// The `key=value` rendering of each entry of `p` whose key is not reserved, in order.
pub open spec fn rendered(p: Seq<(String, String)>) -> Seq<Seq<char>>
    decreases p.len(),
{
    if p.len() == 0 {
        Seq::empty()
    } else if p.last().0@ == reserved_key() {
        rendered(p.drop_last())
    } else {
        rendered(p.drop_last()).push(p.last().0@ + seq!['='] + p.last().1@)
    }
}

/// `name`, followed by the rendered labels in braces when there are any.
pub open spec fn with_labels(name: Seq<char>, labels: Seq<Seq<char>>) -> Seq<char> {
    if labels.len() == 0 {
        name
    } else {
        name + seq!['{'] + join(labels, seq![',']) + seq!['}']
    }
}

/// `r` is `name` with the entries of `p` rendered, sorted ascending and joined.
pub open spec fn is_merged_name(name: Seq<char>, p: Seq<(String, String)>, r: Seq<char>) -> bool {
    exists|q: Seq<Seq<char>>| is_sorted_permutation(q, rendered(p)) && r == with_labels(name, q)
}

/// Relies on `HashMap::into_iter`: it hands out every entry of the map once,
/// in an order that the map's hasher decides.
#[verifier::external_body]
fn map_entries(tags: HashMap<String, String>) -> (r: Vec<(String, String)>)
    ensures
        is_listing(r@, tags@),
{
    tags.into_iter().collect()
}

/// Renders the labels listed in `entries` (skipping the reserved key), sorts
/// them ascending and appends them in braces to `application_name`.
pub fn merge_tag_entries(application_name: String, entries: Vec<(String, String)>) -> (r: String)
    ensures
        is_merged_name(application_name@, entries@, r@),
{
    let ghost name = application_name@;
    let reserved = String::from_str("__name__");
    proof { reveal_strlit("__name__"); reveal_strlit("="); }
    assert(reserved@ =~= reserved_key());
    let mut labels: Vec<String> = Vec::new();
    let mut i: usize = 0;
    while i < entries.len()
        invariant
            i <= entries@.len(),
            reserved@ == reserved_key(),
            texts_of(labels@) == rendered(entries@.take(i as int)),
        decreases entries@.len() - i,
    {
        let key = &entries[i].0;
        let value = &entries[i].1;
        assert(entries@.take(i as int + 1).drop_last() =~= entries@.take(i as int));
        assert(entries@.take(i as int + 1).last() == entries@[i as int]);
        if *key != reserved {
            proof { reveal_strlit("="); }
            let mut label = key.clone();
            label.append("=");
            label.append(value.as_str());
            assert(label@ =~= key@ + seq!['='] + value@);
            let ghost before = labels@;
            labels.push(label);
            assert(texts_of(labels@) =~= texts_of(before).push(label@));
            assert(texts_of(labels@) =~= rendered(entries@.take(i as int + 1)));
        } else {
            assert(texts_of(labels@) =~= rendered(entries@.take(i as int + 1)));
        }
        i = i + 1;
    }
    assert(entries@.take(entries@.len() as int) =~= entries@);
    let ghost unsorted = labels@;
    sort_strings(&mut labels);
    let mut joined = String::new();
    let mut j: usize = 0;
    proof { reveal_strlit(","); }
    while j < labels.len()
        invariant
            j <= labels@.len(),
            joined@ == join(texts_of(labels@).take(j as int), seq![',']),
        decreases labels@.len() - j,
    {
        assert(texts_of(labels@).take(j as int + 1).drop_last() =~= texts_of(labels@).take(j as int));
        let ghost parts = texts_of(labels@).take(j as int + 1);
        assert(parts.last() == labels@[j as int]@);
        if j > 0 {
            proof { reveal_strlit(","); }
            joined.append(",");
        }
        joined.append(labels[j].as_str());
        assert(joined@ =~= join(parts, seq![',']));
        j = j + 1;
    }
    assert(texts_of(labels@).take(labels@.len() as int) =~= texts_of(labels@));
    assert(is_sorted_permutation(texts_of(labels@), rendered(entries@)));
    if labels.len() == 0 {
        assert(texts_of(labels@).len() == 0);
        assert(application_name@ == with_labels(name, texts_of(labels@)));
        application_name
    } else {
        let mut r = application_name;
        proof { reveal_strlit("{"); reveal_strlit("}"); }
        r.append("{");
        r.append(joined.as_str());
        r.append("}");
        assert(r@ =~= with_labels(application_name@, texts_of(labels@)));
        r
    }
}

/// Merges `application_name` with `tags` into one profile key: the labels
/// other than `__name__`, as `key=value`, sorted ascending and joined by `,`,
/// in braces after the name; the bare name when no label is left.
pub fn merge_tags_with_app_name(application_name: String, tags: HashMap<String, String>) -> (r: Result<String, BackendError>)
    ensures
        r is Ok,
        exists|p: Seq<(String, String)>| is_listing(p, tags@) && is_merged_name(application_name@, p, r->Ok_0@),
{
    let entries = map_entries(tags);
    let merged = merge_tag_entries(application_name, entries);
    Ok(merged)
}

/// Without labels the merged name is the application name itself.
pub proof fn law_merge_without_tags(name: Seq<char>, p: Seq<(String, String)>, r: Seq<char>)
    requires
        is_listing(p, Map::<String, String>::empty()),
        is_merged_name(name, p, r),
    ensures
        r == name,
{
    if p.len() > 0 {
        assert(Map::<String, String>::empty().contains_key(p[0].0));
    }
    let q = choose|q: Seq<Seq<char>>| is_sorted_permutation(q, rendered(p)) && r == with_labels(name, q);
    to_multiset_len(q);
    to_multiset_len(rendered(p));
}

proof fn lemma_rendered_append(a: Seq<(String, String)>, b: Seq<(String, String)>)
    ensures
        rendered(a + b) == rendered(a) + rendered(b),
    decreases b.len(),
{
    if b.len() == 0 {
        assert(a + b =~= a);
        assert(rendered(a) + rendered(b) =~= rendered(a));
    } else {
        assert((a + b).drop_last() =~= a + b.drop_last());
        assert((a + b).last() == b.last());
        lemma_rendered_append(a, b.drop_last());
        if b.last().0@ == reserved_key() {
        } else {
            assert(rendered(a + b) =~= rendered(a) + rendered(b));
        }
    }
}

proof fn lemma_listing_rendered_permutation(first: Seq<(String, String)>, second: Seq<(String, String)>, m: Map<String, String>)
    requires
        is_listing(first, m),
        is_listing(second, m),
    ensures
        rendered(first).to_multiset() == rendered(second).to_multiset(),
    decreases first.len(),
{
    if first.len() == 0 {
        if second.len() > 0 {
            assert(m.contains_key(second[0].0));
        }
        assert(second.len() == 0);
        assert(rendered(first) =~= rendered(second));
    } else {
        let e = first.last();
        let n = first.len() - 1;
        assert(m.contains_key(first[n].0));
        let j = choose|j: int| 0 <= j < second.len() && second[j].0 == e.0;
        assert(m.contains_key(second[j].0));
        assert(second[j] == e);
        let m2 = m.remove(e.0);
        let q1 = first.drop_last();
        let q2 = second.remove(j);
        lemma_listing_remove(first, m, n);
        assert(first.remove(n) =~= q1);
        lemma_listing_remove(second, m, j);
        lemma_listing_rendered_permutation(q1, q2, m2);
        let one = seq![e];
        assert(first =~= q1 + one);
        lemma_rendered_append(q1, one);
        assert(second =~= second.take(j) + one + second.skip(j + 1));
        assert(q2 =~= second.take(j) + second.skip(j + 1));
        lemma_rendered_append(second.take(j), one);
        lemma_rendered_append(second.take(j) + one, second.skip(j + 1));
        lemma_rendered_append(second.take(j), second.skip(j + 1));
        lemma_multiset_commutative(rendered(q1), rendered(one));
        lemma_multiset_commutative(rendered(second.take(j)), rendered(one));
        lemma_multiset_commutative(rendered(second.take(j)) + rendered(one), rendered(second.skip(j + 1)));
        lemma_multiset_commutative(rendered(second.take(j)), rendered(second.skip(j + 1)));
        assert(rendered(first).to_multiset() =~= rendered(second).to_multiset());
    }
}

/// The merged name depends on the labels alone, not on the order in which the
/// map hands them out: any two listings of one map give the same name.
pub proof fn law_merge_independent_of_order(
    name: Seq<char>,
    m: Map<String, String>,
    first: Seq<(String, String)>,
    second: Seq<(String, String)>,
    r1: Seq<char>,
    r2: Seq<char>,
)
    requires
        is_listing(first, m),
        is_listing(second, m),
        is_merged_name(name, first, r1),
        is_merged_name(name, second, r2),
    ensures
        r1 == r2,
{
    let q1 = choose|q: Seq<Seq<char>>| is_sorted_permutation(q, rendered(first)) && r1 == with_labels(name, q);
    let q2 = choose|q: Seq<Seq<char>>| is_sorted_permutation(q, rendered(second)) && r2 == with_labels(name, q);
    lemma_listing_rendered_permutation(first, second, m);
    lemma_sorted_permutation_unique(q1, q2);
}

proof fn lemma_listing_remove(p: Seq<(String, String)>, m: Map<String, String>, j: int)
    requires
        is_listing(p, m),
        0 <= j < p.len(),
    ensures
        is_listing(p.remove(j), m.remove(p[j].0)),
{
    let q = p.remove(j);
    let m2 = m.remove(p[j].0);
    assert forall|i: int| 0 <= i < q.len() implies #[trigger] m2.contains_key(q[i].0) && m2[q[i].0] == q[i].1 by {
        if i < j {
            assert(q[i] == p[i]);
            assert(m.contains_key(p[i].0));
        } else {
            assert(q[i] == p[i + 1]);
            assert(m.contains_key(p[i + 1].0));
        }
    }
    assert forall|k: String| #[trigger] m2.contains_key(k) implies exists|i: int| 0 <= i < q.len() && q[i].0 == k by {
        assert(m.contains_key(k));
        let i = choose|i: int| 0 <= i < p.len() && p[i].0 == k;
        assert(i != j);
        if i < j {
            assert(q[i].0 == k);
        } else {
            assert(q[i - 1].0 == k);
        }
    }
    assert forall|a: int, b: int| 0 <= a < b < q.len() implies q[a].0 != q[b].0 by {
        let a2 = if a < j { a } else { a + 1 };
        let b2 = if b < j { b } else { b + 1 };
        assert(q[a] == p[a2]);
        assert(q[b] == p[b2]);
    }
}

/// The reserved key `__name__` plays no part: merging with a map gives the
/// same name as merging with that map without the key.
pub proof fn law_merge_ignores_reserved_key(
    name: Seq<char>,
    m: Map<String, String>,
    k: String,
    with_key: Seq<(String, String)>,
    without_key: Seq<(String, String)>,
    r1: Seq<char>,
    r2: Seq<char>,
)
    requires
        k@ == reserved_key(),
        is_listing(with_key, m),
        is_listing(without_key, m.remove(k)),
        is_merged_name(name, with_key, r1),
        is_merged_name(name, without_key, r2),
    ensures
        r1 == r2,
{
    if m.contains_key(k) {
        let j = choose|j: int| 0 <= j < with_key.len() && with_key[j].0 == k;
        lemma_listing_remove(with_key, m, j);
        let rest = with_key.remove(j);
        let one = seq![with_key[j]];
        assert(with_key =~= with_key.take(j) + one + with_key.skip(j + 1));
        assert(rest =~= with_key.take(j) + with_key.skip(j + 1));
        lemma_rendered_append(with_key.take(j), one);
        lemma_rendered_append(with_key.take(j) + one, with_key.skip(j + 1));
        lemma_rendered_append(with_key.take(j), with_key.skip(j + 1));
        assert(one.drop_last() =~= Seq::<(String, String)>::empty());
        assert(one.last() == with_key[j]);
        assert(one.last().0@ == reserved_key());
        assert(rendered(one.drop_last()) =~= Seq::<Seq<char>>::empty());
        assert(rendered(one) =~= Seq::<Seq<char>>::empty());
        assert(rendered(with_key.take(j)) + rendered(one) =~= rendered(with_key.take(j)));
        assert(rendered(with_key) == rendered(rest));
        lemma_listing_rendered_permutation(rest, without_key, m.remove(k));
    } else {
        assert(m.remove(k) =~= m);
        lemma_listing_rendered_permutation(with_key, without_key, m);
    }
    let q1 = choose|q: Seq<Seq<char>>| is_sorted_permutation(q, rendered(with_key)) && r1 == with_labels(name, q);
    let q2 = choose|q: Seq<Seq<char>>| is_sorted_permutation(q, rendered(without_key)) && r2 == with_labels(name, q);
    lemma_sorted_permutation_unique(q1, q2);
}

} // verus!
