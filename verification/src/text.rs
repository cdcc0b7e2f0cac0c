//! Order on texts.
use vstd::prelude::*;
use vstd::relations::{sorted_by, total_ordering};
use vstd::seq_lib::lemma_sorted_unique;
use vstd::std_specs::iter::IteratorSpec;

verus! {

/// Lexicographic order on texts, character by character by code point; a
/// proper prefix comes first.
pub open spec fn text_leq(a: Seq<char>, b: Seq<char>) -> bool
    decreases a.len(),
{
    if a.len() == 0 {
        true
    } else if b.len() == 0 {
        false
    } else if a[0] != b[0] {
        (a[0] as u32) < (b[0] as u32)
    } else {
        text_leq(a.drop_first(), b.drop_first())
    }
}

/// Whether `a` comes before `b`, or equals it, in lexicographic order.
pub fn text_precedes(a: &str, b: &str) -> (r: bool)
    ensures
        r == text_leq(a@, b@),
{
    broadcast use vstd::string::group_string_axioms;

    let mut ia = a.chars();
    let mut ib = b.chars();
    loop
        invariant
            ia.obeys_prophetic_iter_laws(),
            ib.obeys_prophetic_iter_laws(),
            ia.decrease() is Some,
            text_leq(a@, b@) == text_leq(ia.remaining(), ib.remaining()),
        decreases ia.decrease()->0,
    {
        match ia.next() {
            None => {
                return true;
            },
            Some(ca) => {
                match ib.next() {
                    None => {
                        return false;
                    },
                    Some(cb) => {
                        if ca != cb {
                            return (ca as u32) < (cb as u32);
                        }
                    },
                }
            },
        }
    }
}

/// The lexicographic order as a relation.
pub open spec fn text_order() -> spec_fn(Seq<char>, Seq<char>) -> bool {
    |a: Seq<char>, b: Seq<char>| text_leq(a, b)
}

/// The views of a sequence of texts.
pub open spec fn text_views(texts: Seq<String>) -> Seq<Seq<char>> {
    texts.map_values(|t: String| t@)
}

proof fn lemma_leq_reflexive(a: Seq<char>)
    ensures
        text_leq(a, a),
    decreases a.len(),
{
    if a.len() > 0 {
        lemma_leq_reflexive(a.drop_first());
    }
}

proof fn lemma_leq_antisymmetric(a: Seq<char>, b: Seq<char>)
    requires
        text_leq(a, b),
        text_leq(b, a),
    ensures
        a == b,
    decreases a.len(),
{
    if a.len() == 0 || b.len() == 0 {
        assert(a =~= b);
    } else {
        lemma_leq_antisymmetric(a.drop_first(), b.drop_first());
        assert(a =~= seq![a[0]] + a.drop_first());
        assert(b =~= seq![b[0]] + b.drop_first());
    }
}

proof fn lemma_leq_transitive(a: Seq<char>, b: Seq<char>, c: Seq<char>)
    requires
        text_leq(a, b),
        text_leq(b, c),
    ensures
        text_leq(a, c),
    decreases a.len(),
{
    if a.len() > 0 && b.len() > 0 && c.len() > 0 {
        if a[0] == b[0] && b[0] == c[0] {
            lemma_leq_transitive(a.drop_first(), b.drop_first(), c.drop_first());
        }
    }
}

proof fn lemma_leq_connected(a: Seq<char>, b: Seq<char>)
    ensures
        text_leq(a, b) || text_leq(b, a),
    decreases a.len(),
{
    if a.len() > 0 && b.len() > 0 {
        if a[0] == b[0] {
            lemma_leq_connected(a.drop_first(), b.drop_first());
        } else {
            vstd::utf8::char_u32_cast(a[0], a[0] as u32);
            vstd::utf8::char_u32_cast(b[0], b[0] as u32);
        }
    }
}

/// The lexicographic order is a total order on texts.
pub proof fn lemma_text_order_total()
    ensures
        total_ordering(text_order()),
{
    let r = text_order();
    assert forall|x: Seq<char>| #[trigger] r(x, x) by {
        lemma_leq_reflexive(x);
    }
    assert forall|x: Seq<char>, y: Seq<char>| #[trigger] r(x, y) && #[trigger] r(y, x) implies x
        == y by {
        lemma_leq_antisymmetric(x, y);
    }
    assert forall|x: Seq<char>, y: Seq<char>, z: Seq<char>| #[trigger]
        r(x, y) && #[trigger] r(y, z) implies r(x, z) by {
        lemma_leq_transitive(x, y, z);
    }
    assert forall|x: Seq<char>, y: Seq<char>| #[trigger] r(x, y) || #[trigger] r(y, x) by {
        lemma_leq_connected(x, y);
    }
}

/// The first place at which a list of texts holds a text.
pub fn find_text(texts: &Vec<String>, text: &String) -> (r: Option<usize>)
    ensures
        r is Some <==> text_views(texts@).contains(text@),
        r matches Some(k) ==> k < texts@.len() && texts@[k as int]@ == text@ && forall|j: int|
            0 <= j < k ==> (#[trigger] text_views(texts@)[j]) != text@,
{
    let mut k: usize = 0;
    while k < texts.len()
        invariant
            k <= texts@.len(),
            forall|j: int| 0 <= j < k ==> (#[trigger] text_views(texts@)[j]) != text@,
        decreases texts@.len() - k,
    {
        if texts[k] == *text {
            assert(text_views(texts@)[k as int] == text@);
            return Some(k);
        }
        k += 1;
    }
    None
}

/// The texts in lexicographic order.
pub fn sort_texts(texts: Vec<String>) -> (r: Vec<String>)
    ensures
        text_views(r@) == text_views(texts@).sort_by(text_order()),
{
    broadcast use vstd::seq_lib::group_to_multiset_ensures;

    let mut out: Vec<String> = Vec::new();
    let mut i: usize = 0;
    proof {
        lemma_text_order_total();
        assert(text_views(out@) =~= Seq::empty());
        assert(text_views(texts@).take(0) =~= Seq::empty());
    }
    while i < texts.len()
        invariant
            i <= texts@.len(),
            total_ordering(text_order()),
            sorted_by(text_views(out@), text_order()),
            text_views(out@).to_multiset() == text_views(texts@).take(i as int).to_multiset(),
        decreases texts@.len() - i,
    {
        let x = texts[i].clone();
        let mut at: usize = 0;
        while at < out.len() && !text_precedes(x.as_str(), out[at].as_str())
            invariant
                at <= out@.len(),
                forall|j: int| 0 <= j < at ==> !text_leq(x@, #[trigger] text_views(out@)[j]),
            decreases out@.len() - at,
        {
            at += 1;
        }
        let ghost before = text_views(out@);
        out.insert(at, x);
        proof {
            let after = text_views(out@);
            assert(after =~= before.insert(at as int, x@));
            assert(after.remove(at as int) =~= before);
            vstd::seq_lib::to_multiset_remove(after, at as int);
            assert(after.contains(x@)) by {
                assert(after[at as int] == x@);
            }
            after.to_multiset_ensures();
            assert(after.to_multiset().count(x@) > 0);
            assert(after.to_multiset() =~= before.to_multiset().insert(x@));
            assert(text_views(texts@).take(i + 1) =~= text_views(texts@).take(i as int).push(x@));
            vstd::seq_lib::to_multiset_build(text_views(texts@).take(i as int), x@);
            assert forall|a: int, b: int| 0 <= a < b < after.len() implies #[trigger] text_order()(
                after[a],
                after[b],
            ) by {
                if b < at {
                    assert(text_order()(before[a], before[b]));
                } else if b == at {
                    lemma_leq_connected(x@, before[a]);
                } else if a < at {
                    assert(text_order()(before[a], before[b - 1]));
                } else if a == at {
                    assert(text_leq(x@, before[at as int]));
                    if b - 1 > at {
                        assert(text_order()(before[at as int], before[b - 1]));
                        lemma_leq_transitive(x@, before[at as int], before[b - 1]);
                    }
                } else {
                    assert(text_order()(before[a - 1], before[b - 1]));
                }
            }
        }
        i += 1;
    }
    proof {
        let all = text_views(texts@);
        assert(all.take(texts@.len() as int) == all);
        all.lemma_sort_by_ensures(text_order());
        lemma_sorted_unique(text_views(out@), all.sort_by(text_order()), text_order());
    }
    out
}

/// Sorting texts that are all different keeps them all different, and keeps
/// exactly the same texts.
pub proof fn lemma_sorted_members(ids: Seq<Seq<char>>)
    requires
        ids.no_duplicates(),
    ensures
        ids.sort_by(text_order()).no_duplicates(),
        sorted_by(ids.sort_by(text_order()), text_order()),
        ids.sort_by(text_order()).len() == ids.len(),
        forall|id: Seq<char>| #[trigger] ids.sort_by(text_order()).contains(id) <==> ids.contains(id),
{
    let sorted = ids.sort_by(text_order());
    lemma_text_order_total();
    ids.lemma_sort_by_ensures(text_order());
    ids.lemma_multiset_has_no_duplicates();
    sorted.lemma_multiset_has_no_duplicates_conv();
    ids.to_multiset_ensures();
    sorted.to_multiset_ensures();
    assert forall|id: Seq<char>| #[trigger] sorted.contains(id) <==> ids.contains(id) by {
        assert(sorted.to_multiset().count(id) == ids.to_multiset().count(id));
    }
}

} // verus!
