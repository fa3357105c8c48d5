use vstd::prelude::*;
use core::cmp::Ordering;
use crate::model::{PathView, CaseView, EnumView, VariantView};
use crate::order::{text_order, lemma_text_order};
use crate::validate::{
    Problem, problems_of, first_index, names_of, lemma_first_index_at_most,
    lemma_first_index_found, lemma_problems_include, variant_problems, variant_ok,
    lemma_problems_empty,
};
use crate::synth::{
    SynthesisView, is_synthesis_of, sorted_by_name, entries, entry_of, case_names,
};

verus! {

/// Two case lists, each strictly ordered by name, that hold the same cases are equal.
pub proof fn lemma_sorted_unique(s1: Seq<CaseView>, s2: Seq<CaseView>)
    requires
        sorted_by_name(s1),
        sorted_by_name(s2),
        forall|c: CaseView| s1.contains(c) <==> s2.contains(c),
    ensures
        s1 == s2,
    decreases s1.len(),
{
    if s1.len() == 0 {
        if s2.len() > 0 {
            assert(s2.contains(s2[0]));
        }
        assert(s1 =~= s2);
    } else {
        assert(s1.contains(s1[0]));
        assert(s2.contains(s1[0]));
        let j = choose|j: int| 0 <= j < s2.len() && s2[j] == s1[0];
        assert(s2.contains(s2[0]));
        let i = choose|i: int| 0 <= i < s1.len() && s1[i] == s2[0];
        lemma_text_order(s1[0].name, s2[0].name, s1[0].name);
        lemma_text_order(s2[0].name, s1[0].name, s2[0].name);
        lemma_text_order(s2[0].name, s2[0].name, s2[0].name);
        if j > 0 {
            assert(text_order(s2[0].name, s2[j].name) == Ordering::Less);
            if i > 0 {
                assert(text_order(s1[0].name, s1[i].name) == Ordering::Less);
            }
        }
        assert(j == 0);
        let t1 = s1.drop_first();
        let t2 = s2.drop_first();
        assert forall|c: CaseView| t1.contains(c) <==> t2.contains(c) by {
            if t1.contains(c) {
                let k = choose|k: int| 0 <= k < t1.len() && t1[k] == c;
                assert(s1[k + 1] == c);
                assert(s2.contains(c));
                assert(text_order(s1[0].name, s1[k + 1].name) == Ordering::Less);
                lemma_text_order(s1[0].name, c.name, s1[0].name);
                let m = choose|m: int| 0 <= m < s2.len() && s2[m] == c;
                assert(m != 0);
                assert(t2[m - 1] == c);
            }
            if t2.contains(c) {
                let k = choose|k: int| 0 <= k < t2.len() && t2[k] == c;
                assert(s2[k + 1] == c);
                assert(s1.contains(c));
                assert(text_order(s2[0].name, s2[k + 1].name) == Ordering::Less);
                lemma_text_order(s2[0].name, c.name, s2[0].name);
                let m = choose|m: int| 0 <= m < s1.len() && s1[m] == c;
                assert(m != 0);
                assert(t1[m - 1] == c);
            }
        }
        assert(sorted_by_name(t1)) by {
            assert forall|a: int, b: int| 0 <= a < b < t1.len() implies text_order(
                #[trigger] t1[a].name,
                #[trigger] t1[b].name,
            ) == Ordering::Less by {
                assert(t1[a] == s1[a + 1] && t1[b] == s1[b + 1]);
            }
        }
        assert(sorted_by_name(t2)) by {
            assert forall|a: int, b: int| 0 <= a < b < t2.len() implies text_order(
                #[trigger] t2[a].name,
                #[trigger] t2[b].name,
            ) == Ordering::Less by {
                assert(t2[a] == s2[a + 1] && t2[b] == s2[b + 1]);
            }
        }
        lemma_sorted_unique(t1, t2);
        assert(s1 =~= seq![s1[0]] + t1);
        assert(s2 =~= seq![s2[0]] + t2);
    }
}

/// The synthesis for a declaration and a capability list is unique: two outcomes
/// for the same input are the same, case for case and impl for impl.
pub proof fn lemma_determinism(
    d: EnumView,
    bounds: Seq<PathView>,
    s1: SynthesisView,
    s2: SynthesisView,
)
    requires
        is_synthesis_of(s1, d, bounds),
        is_synthesis_of(s2, d, bounds),
    ensures
        s1 == s2,
{
    lemma_same_cases_same_synthesis(d, d, bounds, s1, s2);
}

proof fn lemma_same_cases_same_synthesis(
    d1: EnumView,
    d2: EnumView,
    bounds: Seq<PathView>,
    s1: SynthesisView,
    s2: SynthesisView,
)
    requires
        d1.generics == d2.generics,
        forall|c: CaseView| entries(d1.variants).contains(c) <==> entries(d2.variants).contains(c),
        is_synthesis_of(s1, d1, bounds),
        is_synthesis_of(s2, d2, bounds),
    ensures
        s1 == s2,
{
    lemma_sorted_unique(s1.cases, s2.cases);
    assert(s1.conversions =~= s2.conversions);
    assert(s1.projections =~= s2.projections);
}

proof fn lemma_entries_contains(vs: Seq<VariantView>, c: CaseView)
    ensures
        entries(vs).contains(c) <==> exists|v: VariantView| vs.contains(v) && c == entry_of(v),
{
    if entries(vs).contains(c) {
        let i = choose|i: int| 0 <= i < entries(vs).len() && entries(vs)[i] == c;
        assert(vs.contains(vs[i]));
    }
    if exists|v: VariantView| vs.contains(v) && c == entry_of(v) {
        let v = choose|v: VariantView| vs.contains(v) && c == entry_of(v);
        let i = choose|i: int| 0 <= i < vs.len() && vs[i] == v;
        assert(entries(vs)[i] == c);
    }
}

/// Permuting the declared variants changes nothing that is synthesised: the
/// cases, conversions and projections depend on names and paths, not on the
/// order of declaration.
pub proof fn lemma_order_invariance(
    d1: EnumView,
    d2: EnumView,
    bounds: Seq<PathView>,
    s1: SynthesisView,
    s2: SynthesisView,
)
    requires
        d1.name == d2.name,
        d1.generics == d2.generics,
        d1.variants.to_multiset() == d2.variants.to_multiset(),
        is_synthesis_of(s1, d1, bounds),
        is_synthesis_of(s2, d2, bounds),
    ensures
        s1 == s2,
{
    d1.variants.to_multiset_ensures();
    d2.variants.to_multiset_ensures();
    assert forall|c: CaseView| entries(d1.variants).contains(c) <==> entries(
        d2.variants,
    ).contains(c) by {
        lemma_entries_contains(d1.variants, c);
        lemma_entries_contains(d2.variants, c);
        assert forall|v: VariantView| d1.variants.contains(v) <==> d2.variants.contains(v) by {
            assert(d1.variants.to_multiset().count(v) == d2.variants.to_multiset().count(v));
            assert(d1.variants.contains(v) <==> d1.variants.to_multiset().count(v) > 0);
            assert(d2.variants.contains(v) <==> d2.variants.to_multiset().count(v) > 0);
        }
    }
    lemma_same_cases_same_synthesis(d1, d2, bounds, s1, s2);
}

/// A permutation of a declaration that draws no finding draws none either, so
/// both synthesise, and by `lemma_order_invariance` alike.
pub proof fn lemma_permutation_valid(v1: Seq<VariantView>, v2: Seq<VariantView>)
    requires
        v1.to_multiset() == v2.to_multiset(),
        problems_of(v1).len() == 0,
    ensures
        problems_of(v2).len() == 0,
{
    lemma_problems_empty(v1);
    lemma_problems_empty(v2);
    v1.to_multiset_ensures();
    v2.to_multiset_ensures();
    assert forall|v: VariantView| v2.contains(v) implies v1.contains(v) by {
        assert(v1.to_multiset().count(v) == v2.to_multiset().count(v));
        assert(v1.contains(v) <==> v1.to_multiset().count(v) > 0);
        assert(v2.contains(v) <==> v2.to_multiset().count(v) > 0);
    }
    assert forall|i: int| 0 <= i < v2.len() implies variant_ok(#[trigger] v2[i]) by {
        assert(v2.contains(v2[i]));
        let p = choose|p: int| 0 <= p < v1.len() && v1[p] == v2[i];
        assert(variant_ok(v1[p]));
    }
    assert(v1.no_duplicates());
    v1.lemma_multiset_has_no_duplicates();
    v2.lemma_multiset_has_no_duplicates_conv();
    assert forall|i: int, j: int| 0 <= i < j < v2.len() implies v2[i].name != v2[j].name by {
        if v2[i].name == v2[j].name {
            assert(v2.contains(v2[i]));
            assert(v2.contains(v2[j]));
            let p = choose|p: int| 0 <= p < v1.len() && v1[p] == v2[i];
            let q = choose|q: int| 0 <= q < v1.len() && v1[q] == v2[j];
            assert(p == q);
        }
    }
}

/// Two variants of one name give a finding at the later one that points to the
/// first declaration of that name; so nothing is synthesised.
pub proof fn lemma_duplicate_reported(vs: Seq<VariantView>, i: int, j: int)
    requires
        0 <= i < j < vs.len(),
        vs[i].name == vs[j].name,
        j <= usize::MAX,
    ensures
        problems_of(vs).contains(
            Problem::Duplicate { at: j as usize, first: first_index(vs, vs[j].name) as usize },
        ),
        first_index(vs, vs[j].name) <= i,
        vs[first_index(vs, vs[j].name)].name == vs[j].name,
        problems_of(vs).len() > 0,
{
    let names = names_of(vs);
    assert(names[i] == names[j]);
    lemma_first_index_at_most(names, 0, i);
    lemma_first_index_found(names, vs[j].name, 0);
    let p = Problem::Duplicate { at: j as usize, first: first_index(vs, vs[j].name) as usize };
    let vp = variant_problems(vs, j);
    assert(vp[vp.len() - 1] == p);
    assert(vp.contains(p));
    lemma_problems_include(vs, vs.len() as int, j);
}

/// Each declared variant has its case, and the conversion at that case takes the
/// variant's payload type into exactly that case.
pub proof fn lemma_round_trip(d: EnumView, bounds: Seq<PathView>, s: SynthesisView, v: VariantView)
    requires
        is_synthesis_of(s, d, bounds),
        d.variants.contains(v),
    ensures
        exists|i: int|
            0 <= i < s.cases.len() && s.cases[i] == entry_of(v) && #[trigger] s.conversions[i] == (
                entry_of(v).payload,
                v.name,
            ),
{
    let k = choose|k: int| 0 <= k < d.variants.len() && d.variants[k] == v;
    assert(entries(d.variants)[k] == entry_of(v));
    assert(s.cases.contains(entry_of(v)));
    let i = choose|i: int| 0 <= i < s.cases.len() && s.cases[i] == entry_of(v);
    assert(s.conversions[i] == (entry_of(v).payload, v.name));
}

/// Every projection has one arm for every case, in case order, so any case can be
/// seen through every requested capability.
pub proof fn lemma_projection_covers(
    d: EnumView,
    bounds: Seq<PathView>,
    s: SynthesisView,
    k: int,
    i: int,
)
    requires
        is_synthesis_of(s, d, bounds),
        0 <= k < bounds.len(),
        0 <= i < s.cases.len(),
    ensures
        s.projections[k].1.len() == s.cases.len(),
        s.projections[k].1[i] == s.cases[i].name,
{
    assert(s.projections[k] == (bounds[k].segments[0].0, case_names(s.cases)));
}

} // verus!
