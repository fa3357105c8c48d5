use vstd::prelude::*;
use crate::model::{
    Text, PathView, TypePath, VariantBody, VariantDecl, VariantView, BodyView, ident_path,
    ident_to_path, opt_path_view,
};

verus! {

/// One finding against the declaration; `at` is the position of the offending variant.
#[derive(PartialEq, Eq, Structural, Clone, Copy, Debug)]
pub enum Problem {
    Attributes { at: usize },
    Fields { at: usize },
    Discriminant { at: usize },
    /// A second variant of a name already declared at position `first`.
    Duplicate { at: usize, first: usize },
}

/// The payload type of a variant: its name where it gives none, the single plain
/// path in its parentheses, and none where it declares fields in any other way.
pub open spec fn payload_of(v: VariantView) -> Option<PathView> {
    match v.body {
        BodyView::Unit => Some(ident_path(v.name)),
        BodyView::Paren(items) => if items.len() == 1 {
            items[0]
        } else {
            None
        },
        BodyView::Braced => None,
    }
}

pub open spec fn names_of(vs: Seq<VariantView>) -> Seq<Text> {
    vs.map_values(|v: VariantView| v.name)
}

/// The first position at or after `k` that holds `name`, or the length when there is none.
pub open spec fn first_index_from(names: Seq<Text>, name: Text, k: int) -> int
    decreases names.len() - k,
{
    if k < 0 || k >= names.len() {
        names.len() as int
    } else if names[k] == name {
        k
    } else {
        first_index_from(names, name, k + 1)
    }
}

/// The first position at which `name` is declared.
pub open spec fn first_index(vs: Seq<VariantView>, name: Text) -> int {
    first_index_from(names_of(vs), name, 0)
}

/// The findings against the variant at position `i`, in a fixed order.
pub open spec fn variant_problems(vs: Seq<VariantView>, i: int) -> Seq<Problem> {
    let v = vs[i];
    let first = first_index(vs, v.name);
    (if v.has_attributes {
        seq![Problem::Attributes { at: i as usize }]
    } else {
        Seq::empty()
    }) + (if payload_of(v) is None {
        seq![Problem::Fields { at: i as usize }]
    } else {
        Seq::empty()
    }) + (if v.has_discriminant {
        seq![Problem::Discriminant { at: i as usize }]
    } else {
        Seq::empty()
    }) + (if first < i {
        seq![Problem::Duplicate { at: i as usize, first: first as usize }]
    } else {
        Seq::empty()
    })
}

pub open spec fn problems_upto(vs: Seq<VariantView>, n: int) -> Seq<Problem>
    decreases n,
{
    if n <= 0 {
        Seq::empty()
    } else {
        problems_upto(vs, n - 1) + variant_problems(vs, n - 1)
    }
}

/// Every finding against the declared variants, variant by variant.
pub open spec fn problems_of(vs: Seq<VariantView>) -> Seq<Problem> {
    problems_upto(vs, vs.len() as int)
}

pub open spec fn problem_message(p: Problem, vs: Seq<VariantView>) -> Text {
    match p {
        Problem::Attributes { .. } => "Expected plain name: found attributes"@,
        Problem::Fields { .. } => "Expected plain name: found fields"@,
        Problem::Discriminant { .. } => "Expected plain name: found discriminant"@,
        Problem::Duplicate { at, .. } => "Duplicate variant name: "@ + vs[at as int].name,
    }
}

impl Problem {
    pub open spec fn position(self) -> usize {
        match self {
            Problem::Attributes { at } => at,
            Problem::Fields { at } => at,
            Problem::Discriminant { at } => at,
            Problem::Duplicate { at, .. } => at,
        }
    }

    /// The message reported for this finding.
    pub fn message(&self, variants: &Vec<VariantDecl>) -> (r: String)
        requires
            self.position() < variants@.len(),
        ensures
            r@ == problem_message(*self, variants@.map_values(|v: VariantDecl| v@)),
    {
        match self {
            Problem::Attributes { .. } => String::from_str("Expected plain name: found attributes"),
            Problem::Fields { .. } => String::from_str("Expected plain name: found fields"),
            Problem::Discriminant { .. } => String::from_str(
                "Expected plain name: found discriminant",
            ),
            Problem::Duplicate { at, .. } => {
                let mut m = String::from_str("Duplicate variant name: ");
                m.append(variants[*at].name.as_str());
                m
            },
        }
    }
}

/// The payload type of one variant, as `payload_of` says.
pub fn payload(v: &VariantDecl) -> (r: Option<TypePath>)
    ensures
        opt_path_view(r) == payload_of(v@),
{
    match &v.body {
        VariantBody::Unit => Some(ident_to_path(&v.name)),
        VariantBody::Paren(items) => {
            if items.len() == 1 {
                match &items[0] {
                    Some(p) => Some(p.duplicate()),
                    None => None,
                }
            } else {
                None
            }
        },
        VariantBody::Braced => None,
    }
}

fn first_position(variants: &Vec<VariantDecl>, i: usize) -> (r: usize)
    requires
        i < variants@.len(),
    ensures
        r as int == first_index(variants@.map_values(|v: VariantDecl| v@), variants@[i as int].name@),
        r <= i,
{
    let ghost vs = variants@.map_values(|v: VariantDecl| v@);
    let ghost names = names_of(vs);
    let mut j: usize = 0;
    while j < i && variants[j].name != variants[i].name
        invariant
            j <= i,
            i < variants@.len(),
            vs == variants@.map_values(|v: VariantDecl| v@),
            names == names_of(vs),
            first_index_from(names, names[i as int], 0) == first_index_from(
                names,
                names[i as int],
                j as int,
            ),
        decreases i - j,
    {
        j = j + 1;
    }
    j
}

/// Every finding against the declared variants, collected before anything is
/// reported: attributes, inline fields, discriminants and repeated names.
pub fn validate(variants: &Vec<VariantDecl>) -> (r: Vec<Problem>)
    ensures
        r@ == problems_of(variants@.map_values(|v: VariantDecl| v@)),
{
    let ghost vs = variants@.map_values(|v: VariantDecl| v@);
    let mut r: Vec<Problem> = Vec::new();
    let mut i: usize = 0;
    while i < variants.len()
        invariant
            i <= variants@.len(),
            vs == variants@.map_values(|v: VariantDecl| v@),
            r@ == problems_upto(vs, i as int),
        decreases variants@.len() - i,
    {
        let v = &variants[i];
        proof {
            assert(vs[i as int] == v@);
        }
        let ghost start = r@;
        let mut found: Vec<Problem> = Vec::new();
        if v.has_attributes {
            found.push(Problem::Attributes { at: i });
        }
        let p = payload(v);
        if p.is_none() {
            found.push(Problem::Fields { at: i });
        }
        if v.has_discriminant {
            found.push(Problem::Discriminant { at: i });
        }
        let first = first_position(variants, i);
        if first < i {
            found.push(Problem::Duplicate { at: i, first });
        }
        assert(found@ =~= variant_problems(vs, i as int));
        r.append(&mut found);
        assert(r@ =~= problems_upto(vs, i as int + 1));
        i = i + 1;
    }
    r
}

pub proof fn lemma_first_index_at_most(names: Seq<Text>, k: int, m: int)
    requires
        0 <= k <= m < names.len(),
    ensures
        first_index_from(names, names[m], k) <= m,
    decreases m - k,
{
    if names[k] != names[m] {
        lemma_first_index_at_most(names, k + 1, m);
    }
}

pub proof fn lemma_first_index_found(names: Seq<Text>, x: Text, k: int)
    requires
        0 <= k,
        first_index_from(names, x, k) < names.len(),
    ensures
        k <= first_index_from(names, x, k),
        names[first_index_from(names, x, k)] == x,
    decreases names.len() - k,
{
    if k < names.len() && names[k] != x {
        lemma_first_index_found(names, x, k + 1);
    }
}

/// Every finding against the variant at position `j` is among all the findings.
pub proof fn lemma_problems_include(vs: Seq<VariantView>, n: int, j: int)
    requires
        0 <= j < n <= vs.len(),
    ensures
        forall|p: Problem| variant_problems(vs, j).contains(p) ==> problems_upto(vs, n).contains(p),
    decreases n,
{
    if j < n - 1 {
        lemma_problems_include(vs, n - 1, j);
    }
    assert forall|p: Problem| variant_problems(vs, j).contains(p) implies problems_upto(
        vs,
        n,
    ).contains(p) by {
        let a = problems_upto(vs, n - 1);
        let b = variant_problems(vs, n - 1);
        assert(problems_upto(vs, n) == a + b);
        if j == n - 1 {
            let q = choose|q: int| 0 <= q < b.len() && b[q] == p;
            assert((a + b)[a.len() + q] == p);
        } else {
            let q = choose|q: int| 0 <= q < a.len() && a[q] == p;
            assert((a + b)[q] == p);
        }
    }
}

/// A variant that draws no finding on its own.
pub open spec fn variant_ok(v: VariantView) -> bool {
    !v.has_attributes && payload_of(v) is Some && !v.has_discriminant
}

proof fn lemma_first_index_is(names: Seq<Text>, i: int, k: int)
    requires
        0 <= k <= i < names.len(),
        forall|m: int| 0 <= m < i ==> #[trigger] names[m] != names[i],
    ensures
        first_index_from(names, names[i], k) == i,
    decreases i - k,
{
    if k < i {
        lemma_first_index_is(names, i, k + 1);
    }
}

/// A declaration draws no finding exactly when each variant is plain and no name repeats.
pub proof fn lemma_problems_empty(vs: Seq<VariantView>)
    ensures
        problems_of(vs).len() == 0 <==> (forall|i: int|
            0 <= i < vs.len() ==> variant_ok(#[trigger] vs[i])) && (forall|i: int, j: int|
            0 <= i < j < vs.len() ==> vs[i].name != vs[j].name),
{
    if problems_of(vs).len() == 0 {
        lemma_no_problems(vs);
        lemma_no_problems_upto(vs, vs.len() as int);
        assert forall|i: int| 0 <= i < vs.len() implies variant_ok(#[trigger] vs[i]) by {
            assert(variant_problems(vs, i).len() == 0);
        }
    }
    if (forall|i: int| 0 <= i < vs.len() ==> variant_ok(#[trigger] vs[i])) && (forall|
        i: int,
        j: int,
    | 0 <= i < j < vs.len() ==> vs[i].name != vs[j].name) {
        lemma_plain_upto(vs, vs.len() as int);
    }
}

proof fn lemma_plain_upto(vs: Seq<VariantView>, n: int)
    requires
        0 <= n <= vs.len(),
        forall|i: int| 0 <= i < vs.len() ==> variant_ok(#[trigger] vs[i]),
        forall|i: int, j: int| 0 <= i < j < vs.len() ==> vs[i].name != vs[j].name,
    ensures
        problems_upto(vs, n).len() == 0,
    decreases n,
{
    if n > 0 {
        lemma_plain_upto(vs, n - 1);
        let names = names_of(vs);
        assert forall|m: int| 0 <= m < n - 1 implies #[trigger] names[m] != names[n - 1] by {
            assert(vs[m].name != vs[n - 1].name);
        }
        lemma_first_index_is(names, n - 1, 0);
        assert(variant_ok(vs[n - 1]));
        assert(variant_problems(vs, n - 1) =~= Seq::empty());
    }
}

/// A declaration without findings has a payload for every variant and no name twice.
pub proof fn lemma_no_problems(vs: Seq<VariantView>)
    requires
        problems_of(vs).len() == 0,
    ensures
        forall|i: int| 0 <= i < vs.len() ==> (#[trigger] payload_of(vs[i])) is Some,
        forall|i: int, j: int| 0 <= i < j < vs.len() ==> vs[i].name != vs[j].name,
{
    lemma_no_problems_upto(vs, vs.len() as int);
    assert forall|i: int, j: int| 0 <= i < j < vs.len() implies vs[i].name != vs[j].name by {
        assert(variant_problems(vs, j).len() == 0);
        if vs[i].name == vs[j].name {
            let names = names_of(vs);
            assert(names[i] == names[j]);
            lemma_first_index_at_most(names, 0, i);
        }
    }
}

proof fn lemma_no_problems_upto(vs: Seq<VariantView>, n: int)
    requires
        0 <= n <= vs.len(),
        problems_upto(vs, n).len() == 0,
    ensures
        forall|i: int| 0 <= i < n ==> (#[trigger] variant_problems(vs, i)).len() == 0,
        forall|i: int| 0 <= i < n ==> (#[trigger] payload_of(vs[i])) is Some,
    decreases n,
{
    if n > 0 {
        lemma_no_problems_upto(vs, n - 1);
        assert(variant_problems(vs, n - 1).len() == 0);
    }
}

} // verus!
