use vstd::prelude::*;
use core::cmp::Ordering;
use itertools::Itertools;
use crate::model::{
    Text, PathView, TypePath, Case, CaseView, EnumDecl, EnumView, GenericView, VariantDecl,
    VariantView,
};
use crate::order::{case_cmp, case_order, text_order, lemma_text_order};
use crate::validate::{Problem, payload, payload_of, problems_of, validate, lemma_no_problems};

verus! {

/// The conversion from a payload type into the case that wraps it.
pub struct Conversion {
    pub payload: TypePath,
    pub case_name: String,
}

/// The projection of every case to one capability: one match arm per case, in order.
pub struct Projection {
    pub capability: String,
    pub arms: Vec<String>,
}

/// What is emitted for a valid declaration: the cases of the sum type in order,
/// one conversion per case, one projection per capability, and the type
/// parameters that each projection bounds by the borrow's lifetime.
pub struct Synthesis {
    pub cases: Vec<Case>,
    pub conversions: Vec<Conversion>,
    pub projections: Vec<Projection>,
    pub outlived: Vec<String>,
}

/// Why nothing is emitted.
pub enum Failure {
    /// The capability at this position is not a plain single-segment name.
    Capability { at: usize },
    /// The variant findings, all of them.
    Variants(Vec<Problem>),
}

pub ghost struct SynthesisView {
    pub cases: Seq<CaseView>,
    pub conversions: Seq<(PathView, Text)>,
    pub projections: Seq<(Text, Seq<Text>)>,
    pub outlived: Seq<Text>,
}

impl View for Conversion {
    type V = (PathView, Text);

    open spec fn view(&self) -> (PathView, Text) {
        (self.payload@, self.case_name@)
    }
}

pub open spec fn texts(v: Seq<String>) -> Seq<Text> {
    v.map_values(|s: String| s@)
}

impl View for Projection {
    type V = (Text, Seq<Text>);

    open spec fn view(&self) -> (Text, Seq<Text>) {
        (self.capability@, texts(self.arms@))
    }
}

impl View for Synthesis {
    type V = SynthesisView;

    open spec fn view(&self) -> SynthesisView {
        SynthesisView {
            cases: self.cases@.map_values(|c: Case| c@),
            conversions: self.conversions@.map_values(|c: Conversion| c@),
            projections: self.projections@.map_values(|p: Projection| p@),
            outlived: texts(self.outlived@),
        }
    }
}

/// A capability must be a plain name: one segment, no leading `::`, no arguments.
pub open spec fn capability_ok(p: PathView) -> bool {
    !p.leading_colon && p.segments.len() == 1 && p.segments[0].1.len() == 0
}

pub open spec fn capabilities_ok(bounds: Seq<PathView>) -> bool {
    forall|k: int| 0 <= k < bounds.len() ==> capability_ok(#[trigger] bounds[k])
}

/// The case that a valid variant declares.
pub open spec fn entry_of(v: VariantView) -> CaseView {
    CaseView { name: v.name, payload: payload_of(v).unwrap() }
}

pub open spec fn entries(vs: Seq<VariantView>) -> Seq<CaseView> {
    vs.map_values(|v: VariantView| entry_of(v))
}

/// Strictly increasing by name.
pub open spec fn sorted_by_name(s: Seq<CaseView>) -> bool {
    forall|i: int, j: int|
        0 <= i < j < s.len() ==> text_order(#[trigger] s[i].name, #[trigger] s[j].name)
            == Ordering::Less
}

pub open spec fn case_names(s: Seq<CaseView>) -> Seq<Text> {
    s.map_values(|c: CaseView| c.name)
}

/// The names of the type parameters among the first `n` generic parameters, in order.
pub open spec fn type_params_upto(gs: Seq<GenericView>, n: int) -> Seq<Text>
    decreases n,
{
    if n <= 0 {
        Seq::empty()
    } else if gs[n - 1].is_type {
        type_params_upto(gs, n - 1).push(gs[n - 1].name)
    } else {
        type_params_upto(gs, n - 1)
    }
}

pub open spec fn type_params(gs: Seq<GenericView>) -> Seq<Text> {
    type_params_upto(gs, gs.len() as int)
}

/// `s` is what is emitted for declaration `d` and capabilities `bounds`: the
/// declared cases, each once, ordered by name; one conversion per case, from its
/// payload into it; for each capability, one projection with an arm for every case.
pub open spec fn is_synthesis_of(s: SynthesisView, d: EnumView, bounds: Seq<PathView>) -> bool {
    &&& sorted_by_name(s.cases)
    &&& forall|c: CaseView| s.cases.contains(c) <==> entries(d.variants).contains(c)
    &&& s.conversions.len() == s.cases.len()
    &&& forall|i: int|
        0 <= i < s.cases.len() ==> #[trigger] s.conversions[i] == (
            s.cases[i].payload,
            s.cases[i].name,
        )
    &&& s.projections.len() == bounds.len()
    &&& forall|k: int|
        0 <= k < bounds.len() ==> #[trigger] s.projections[k] == (
            bounds[k].segments[0].0,
            case_names(s.cases),
        )
    &&& s.outlived == type_params(d.generics)
}

/// Relies on Itertools::sorted_by: the same items come back, in an order where
/// none compares greater than one that follows it.
#[verifier::external_body]
fn sort_cases(cases: Vec<Case>) -> (r: Vec<Case>)
    ensures
        r@.map_values(|c: Case| c@).to_multiset() == cases@.map_values(|c: Case| c@).to_multiset(),
        forall|i: int, j: int|
            0 <= i < j < r@.len() ==> case_order(#[trigger] r@[i]@, #[trigger] r@[j]@)
                != Ordering::Greater,
{
    cases.into_iter().sorted_by(|a, b| case_cmp(a, b)).collect()
}

fn capability_check(p: &TypePath) -> (r: bool)
    ensures
        r == capability_ok(p@),
{
    !p.leading_colon && p.segments.len() == 1 && p.segments[0].arguments.as_str().unicode_len()
        == 0
}

fn copy_strings(v: &Vec<String>) -> (r: Vec<String>)
    ensures
        texts(r@) == texts(v@),
{
    let mut r: Vec<String> = Vec::new();
    let mut i: usize = 0;
    while i < v.len()
        invariant
            i <= v@.len(),
            r@.len() == i,
            forall|k: int| 0 <= k < i ==> (#[trigger] r@[k])@ == v@[k]@,
        decreases v@.len() - i,
    {
        r.push(v[i].clone());
        i = i + 1;
    }
    assert(texts(r@) =~= texts(v@));
    r
}

/// The position of the first capability that is not a plain name, if any.
pub open spec fn first_bad_capability(bounds: Seq<PathView>, k: int) -> bool {
    0 <= k < bounds.len() && !capability_ok(bounds[k]) && forall|m: int|
        0 <= m < k ==> capability_ok(#[trigger] bounds[m])
}

pub open spec fn path_views(bounds: Seq<TypePath>) -> Seq<PathView> {
    bounds.map_values(|p: TypePath| p@)
}

/// Synthesises the sum type for `decl` with one projection per capability in
/// `bounds`. A capability that is not a plain name fails first; then every
/// finding against the variants fails, all of them together; otherwise the
/// outcome is the synthesis that `is_synthesis_of` describes.
pub fn struct_variant(decl: &EnumDecl, bounds: &Vec<TypePath>) -> (r: Result<Synthesis, Failure>)
    ensures
        match r {
            Err(Failure::Capability { at }) => first_bad_capability(
                path_views(bounds@),
                at as int,
            ),
            Err(Failure::Variants(ps)) => capabilities_ok(path_views(bounds@)) && ps@
                == problems_of(decl@.variants) && ps@.len() > 0,
            Ok(s) => capabilities_ok(path_views(bounds@)) && problems_of(decl@.variants).len()
                == 0 && is_synthesis_of(s@, decl@, path_views(bounds@)),
        },
{
    let ghost bv = path_views(bounds@);
    let mut k: usize = 0;
    while k < bounds.len()
        invariant
            k <= bounds@.len(),
            bv == path_views(bounds@),
            forall|m: int| 0 <= m < k ==> capability_ok(#[trigger] bv[m]),
        decreases bounds@.len() - k,
    {
        if !capability_check(&bounds[k]) {
            return Err(Failure::Capability { at: k });
        }
        k = k + 1;
    }
    let ghost vs = decl@.variants;
    assert(vs == decl.variants@.map_values(|v: VariantDecl| v@));
    let problems = validate(&decl.variants);
    if problems.len() > 0 {
        return Err(Failure::Variants(problems));
    }
    proof {
        lemma_no_problems(vs);
        assert forall|i: int| 0 <= i < decl.variants@.len() implies (#[trigger] payload_of(
            decl.variants@[i]@,
        )) is Some by {
            assert(vs[i] == decl.variants@[i]@);
        }
    }
    let cases = collect_cases(&decl.variants);
    let ghost e = entries(vs);
    let sorted = sort_cases(cases);
    let ghost sv = sorted@.map_values(|c: Case| c@);
    proof {
        lemma_sorted_cases(e, sv);
    }
    let conversions = collect_conversions(&sorted);
    let mut projections: Vec<Projection> = Vec::new();
    let mut k: usize = 0;
    while k < bounds.len()
        invariant
            k <= bounds@.len(),
            bv == path_views(bounds@),
            capabilities_ok(bv),
            sv == sorted@.map_values(|c: Case| c@),
            projections@.len() == k,
            forall|m: int|
                0 <= m < k ==> (#[trigger] projections@[m])@ == (
                    bv[m].segments[0].0,
                    case_names(sv),
                ),
        decreases bounds@.len() - k,
    {
        assert(capability_ok(bv[k as int]));
        let capability = bounds[k].segments[0].ident.clone();
        let arms = case_name_list(&sorted);
        projections.push(Projection { capability, arms });
        k = k + 1;
    }
    let outlived = type_param_names(decl);
    let s = Synthesis { cases: sorted, conversions, projections, outlived };
    assert(s@.projections =~= projections@.map_values(|p: Projection| p@));
    Ok(s)
}

/// The declared cases in declaration order; every variant must have a payload.
fn collect_cases(variants: &Vec<VariantDecl>) -> (r: Vec<Case>)
    requires
        forall|i: int|
            0 <= i < variants@.len() ==> (#[trigger] payload_of(variants@[i]@)) is Some,
    ensures
        r@.map_values(|c: Case| c@) == entries(variants@.map_values(|v: VariantDecl| v@)),
{
    let ghost vs = variants@.map_values(|v: VariantDecl| v@);
    let mut r: Vec<Case> = Vec::new();
    let mut i: usize = 0;
    while i < variants.len()
        invariant
            i <= variants@.len(),
            vs == variants@.map_values(|v: VariantDecl| v@),
            forall|j: int|
                0 <= j < variants@.len() ==> (#[trigger] payload_of(variants@[j]@)) is Some,
            r@.len() == i,
            forall|j: int| 0 <= j < i ==> (#[trigger] r@[j])@ == entry_of(vs[j]),
        decreases variants@.len() - i,
    {
        let v = &variants[i];
        assert(payload_of(variants@[i as int]@) is Some);
        match payload(v) {
            Some(p) => {
                r.push(Case { name: v.name.clone(), payload: p });
            },
            None => {
                return r;
            },
        }
        i = i + 1;
    }
    assert(r@.map_values(|c: Case| c@) =~= entries(vs));
    r
}

fn collect_conversions(cases: &Vec<Case>) -> (r: Vec<Conversion>)
    ensures
        r@.len() == cases@.len(),
        forall|i: int|
            0 <= i < cases@.len() ==> (#[trigger] r@[i])@ == (cases@[i].payload@, cases@[i].name@),
{
    let mut r: Vec<Conversion> = Vec::new();
    let mut i: usize = 0;
    while i < cases.len()
        invariant
            i <= cases@.len(),
            r@.len() == i,
            forall|j: int|
                0 <= j < i ==> (#[trigger] r@[j])@ == (cases@[j].payload@, cases@[j].name@),
        decreases cases@.len() - i,
    {
        r.push(Conversion { payload: cases[i].payload.duplicate(), case_name: cases[i].name.clone() });
        i = i + 1;
    }
    r
}

fn case_name_list(cases: &Vec<Case>) -> (r: Vec<String>)
    ensures
        texts(r@) == case_names(cases@.map_values(|c: Case| c@)),
{
    let mut r: Vec<String> = Vec::new();
    let mut i: usize = 0;
    while i < cases.len()
        invariant
            i <= cases@.len(),
            r@.len() == i,
            forall|j: int| 0 <= j < i ==> (#[trigger] r@[j])@ == cases@[j].name@,
        decreases cases@.len() - i,
    {
        r.push(cases[i].name.clone());
        i = i + 1;
    }
    assert(texts(r@) =~= case_names(cases@.map_values(|c: Case| c@)));
    r
}

fn type_param_names(decl: &EnumDecl) -> (r: Vec<String>)
    ensures
        texts(r@) == type_params(decl@.generics),
{
    let ghost gs = decl@.generics;
    let mut r: Vec<String> = Vec::new();
    let mut i: usize = 0;
    while i < decl.generics.len()
        invariant
            i <= decl.generics@.len(),
            gs == decl@.generics,
            texts(r@) == type_params_upto(gs, i as int),
        decreases decl.generics@.len() - i,
    {
        let g = &decl.generics[i];
        assert(gs[i as int] == g@);
        if g.is_type {
            r.push(g.name.clone());
            assert(texts(r@) =~= type_params_upto(gs, i as int).push(g.name@));
        }
        i = i + 1;
    }
    r
}

/// What the sort hands back from the declared cases, when no name repeats, is
/// sorted strictly by name and holds exactly those cases.
proof fn lemma_sorted_cases(e: Seq<CaseView>, s: Seq<CaseView>)
    requires
        forall|i: int, j: int| 0 <= i < j < e.len() ==> e[i].name != e[j].name,
        s.to_multiset() == e.to_multiset(),
        forall|i: int, j: int|
            0 <= i < j < s.len() ==> case_order(#[trigger] s[i], #[trigger] s[j])
                != Ordering::Greater,
    ensures
        sorted_by_name(s),
        forall|c: CaseView| s.contains(c) <==> e.contains(c),
{
    broadcast use vstd::seq_lib::group_to_multiset_ensures;
    s.to_multiset_ensures();
    e.to_multiset_ensures();
    assert forall|c: CaseView| s.contains(c) <==> e.contains(c) by {
        assert(s.to_multiset().count(c) == e.to_multiset().count(c));
        assert(s.contains(c) <==> s.to_multiset().count(c) > 0);
        assert(e.contains(c) <==> e.to_multiset().count(c) > 0);
    }
    assert(e.no_duplicates());
    e.lemma_multiset_has_no_duplicates();
    s.lemma_multiset_has_no_duplicates_conv();
    assert forall|i: int, j: int| 0 <= i < j < s.len() implies text_order(
        #[trigger] s[i].name,
        #[trigger] s[j].name,
    ) == Ordering::Less by {
        lemma_text_order(s[i].name, s[j].name, s[i].name);
        assert(case_order(s[i], s[j]) != Ordering::Greater);
        if s[i].name == s[j].name {
            assert(s.contains(s[i]));
            assert(s.contains(s[j]));
            assert(e.contains(s[i]));
            assert(e.contains(s[j]));
            let p = choose|p: int| 0 <= p < e.len() && e[p] == s[i];
            let q = choose|q: int| 0 <= q < e.len() && e[q] == s[j];
            assert(p == q);
        }
    }
}

} // verus!
