use vstd::prelude::*;
use core::cmp::Ordering;
use crate::model::{Text, PathView, TypePath, PathSegment, Case, CaseView};

verus! {

pub open spec fn char_order(a: char, b: char) -> Ordering {
    if (a as u32) < (b as u32) {
        Ordering::Less
    } else if (a as u32) == (b as u32) {
        Ordering::Equal
    } else {
        Ordering::Greater
    }
}

/// Lexicographic order of two texts from position `i` on: the first differing
/// character decides, and a proper prefix comes first.
pub open spec fn text_order_from(a: Text, b: Text, i: int) -> Ordering
    decreases a.len() - i,
{
    if i < 0 || i >= a.len() {
        if i >= 0 && i < b.len() {
            Ordering::Less
        } else {
            Ordering::Equal
        }
    } else if i >= b.len() {
        Ordering::Greater
    } else if char_order(a[i], b[i]) != Ordering::Equal {
        char_order(a[i], b[i])
    } else {
        text_order_from(a, b, i + 1)
    }
}

/// The order in which identifiers are compared: lexicographic by character.
pub open spec fn text_order(a: Text, b: Text) -> Ordering {
    text_order_from(a, b, 0)
}

/// Order of two segment lists from position `i` on: segment identifiers are
/// compared one by one, and a proper prefix comes before its extension.
pub open spec fn segments_order_from(a: Seq<(Text, Text)>, b: Seq<(Text, Text)>, i: int) -> Ordering
    decreases a.len() - i,
{
    if i < 0 || i >= a.len() {
        if i >= 0 && i < b.len() {
            Ordering::Less
        } else {
            Ordering::Equal
        }
    } else if i >= b.len() {
        Ordering::Greater
    } else if text_order(a[i].0, b[i].0) != Ordering::Equal {
        text_order(a[i].0, b[i].0)
    } else {
        segments_order_from(a, b, i + 1)
    }
}

/// The tie-break over payload paths: a path with a leading `::` comes first,
/// then the segments decide.
pub open spec fn path_order(a: PathView, b: PathView) -> Ordering {
    if a.leading_colon && !b.leading_colon {
        Ordering::Less
    } else if !a.leading_colon && b.leading_colon {
        Ordering::Greater
    } else {
        segments_order_from(a.segments, b.segments, 0)
    }
}

/// The order of the cases in everything that is emitted: by name, then by payload path.
pub open spec fn case_order(a: CaseView, b: CaseView) -> Ordering {
    if text_order(a.name, b.name) != Ordering::Equal {
        text_order(a.name, b.name)
    } else {
        path_order(a.payload, b.payload)
    }
}

pub fn char_cmp(a: char, b: char) -> (r: Ordering)
    ensures
        r == char_order(a, b),
{
    if (a as u32) < (b as u32) {
        Ordering::Less
    } else if (a as u32) == (b as u32) {
        Ordering::Equal
    } else {
        Ordering::Greater
    }
}

/// Compares two identifiers by their text.
pub fn text_cmp(a: &String, b: &String) -> (r: Ordering)
    ensures
        r == text_order(a@, b@),
{
    let la = a.as_str().unicode_len();
    let lb = b.as_str().unicode_len();
    let mut i: usize = 0;
    while i < la && i < lb
        invariant
            la == a@.len(),
            lb == b@.len(),
            i <= la,
            i <= lb,
            text_order(a@, b@) == text_order_from(a@, b@, i as int),
        decreases la - i,
    {
        let c = char_cmp(a.as_str().get_char(i), b.as_str().get_char(i));
        match c {
            Ordering::Equal => {},
            _ => {
                return c;
            },
        }
        i = i + 1;
    }
    if i < lb {
        Ordering::Less
    } else if i < la {
        Ordering::Greater
    } else {
        Ordering::Equal
    }
}

pub fn path_segment_cmp(a: &PathSegment, b: &PathSegment) -> (r: Ordering)
    ensures
        r == text_order(a.ident@, b.ident@),
{
    text_cmp(&a.ident, &b.ident)
}

/// Compares two payload paths as `path_order` says.
pub fn path_cmp(a: &TypePath, b: &TypePath) -> (r: Ordering)
    ensures
        r == path_order(a@, b@),
{
    if a.leading_colon && !b.leading_colon {
        return Ordering::Less;
    } else if !a.leading_colon && b.leading_colon {
        return Ordering::Greater;
    }
    let ghost sa = a@.segments;
    let ghost sb = b@.segments;
    let mut i: usize = 0;
    while i < a.segments.len() && i < b.segments.len()
        invariant
            sa == a@.segments,
            sb == b@.segments,
            i <= a.segments@.len(),
            i <= b.segments@.len(),
            path_order(a@, b@) == segments_order_from(sa, sb, i as int),
        decreases a.segments@.len() - i,
    {
        let c = path_segment_cmp(&a.segments[i], &b.segments[i]);
        match c {
            Ordering::Equal => {},
            _ => {
                return c;
            },
        }
        i = i + 1;
    }
    if i < b.segments.len() {
        Ordering::Less
    } else if i < a.segments.len() {
        Ordering::Greater
    } else {
        Ordering::Equal
    }
}

/// Compares two cases as `case_order` says.
pub fn case_cmp(a: &Case, b: &Case) -> (r: Ordering)
    ensures
        r == case_order(a@, b@),
{
    let c = text_cmp(&a.name, &b.name);
    match c {
        Ordering::Equal => path_cmp(&a.payload, &b.payload),
        _ => c,
    }
}

proof fn lemma_char_order(a: char, b: char)
    ensures
        char_order(a, b) == Ordering::Equal <==> a == b,
        char_order(a, b) == Ordering::Less <==> char_order(b, a) == Ordering::Greater,
{
}

proof fn lemma_text_order_from(a: Text, b: Text, c: Text, i: int)
    requires
        0 <= i <= a.len(),
        i <= b.len(),
    ensures
        text_order_from(a, b, i) == Ordering::Equal <==> a.skip(i) == b.skip(i),
        text_order_from(a, b, i) == Ordering::Less <==> text_order_from(b, a, i)
            == Ordering::Greater,
        text_order_from(a, b, i) == Ordering::Less && text_order_from(b, c, i) == Ordering::Less
            ==> text_order_from(a, c, i) == Ordering::Less,
    decreases a.len() - i,
{
    if i < a.len() && i < b.len() {
        lemma_char_order(a[i], b[i]);
        if i < c.len() {
            lemma_char_order(b[i], c[i]);
            lemma_char_order(a[i], c[i]);
        }
        lemma_text_order_from(a, b, c, i + 1);
        if a.skip(i) == b.skip(i) {
            assert(a.skip(i)[0] == b.skip(i)[0]);
            assert(a.skip(i + 1) =~= a.skip(i).skip(1));
            assert(b.skip(i + 1) =~= b.skip(i).skip(1));
        }
        if a[i] == b[i] && a.skip(i + 1) == b.skip(i + 1) {
            assert(a.skip(i) =~= seq![a[i]] + a.skip(i + 1));
            assert(b.skip(i) =~= seq![b[i]] + b.skip(i + 1));
        }
    } else {
        if i < a.len() {
            assert(a.skip(i).len() != b.skip(i).len());
        }
        if i < b.len() {
            assert(a.skip(i).len() != b.skip(i).len());
        }
        if i >= a.len() && i >= b.len() {
            assert(a.skip(i) =~= b.skip(i));
        }
    }
}

/// `text_order` is a strict total order, with `Equal` exactly on equal texts.
pub proof fn lemma_text_order(a: Text, b: Text, c: Text)
    ensures
        text_order(a, b) == Ordering::Equal <==> a == b,
        text_order(a, b) == Ordering::Less <==> text_order(b, a) == Ordering::Greater,
        text_order(a, b) == Ordering::Less && text_order(b, c) == Ordering::Less
            ==> text_order(a, c) == Ordering::Less,
{
    lemma_text_order_from(a, b, c, 0);
    assert(a.skip(0) =~= a);
    assert(b.skip(0) =~= b);
}

} // verus!
