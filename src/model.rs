use vstd::prelude::*;

verus! {

/// One segment of a type path: its identifier and its generic arguments as
/// written (empty when there are none).
pub struct PathSegment {
    pub ident: String,
    pub arguments: String,
}

/// A reference to a type, such as `Circle`, `::shapes::Circle` or `Value<u8>`.
pub struct TypePath {
    pub leading_colon: bool,
    pub segments: Vec<PathSegment>,
}

/// What follows a variant's name in its declaration.
pub enum VariantBody {
    /// Nothing: the payload type has the variant's name.
    Unit,
    /// A parenthesised list; each item is a plain type path, or `None` when it is
    /// some other kind of type.
    Paren(Vec<Option<TypePath>>),
    /// A braced list of named fields.
    Braced,
}

/// One declared variant, as read from the enum-shaped declaration.
pub struct VariantDecl {
    pub name: String,
    pub has_attributes: bool,
    pub has_discriminant: bool,
    pub body: VariantBody,
}

/// A generic parameter of the declaration; `is_type` tells type parameters from
/// lifetimes and constants.
pub struct GenericParamDecl {
    pub name: String,
    pub is_type: bool,
}

/// The enum-shaped declaration the sum type is synthesised from.
pub struct EnumDecl {
    pub name: String,
    pub generics: Vec<GenericParamDecl>,
    pub variants: Vec<VariantDecl>,
}

pub type Text = Seq<char>;

pub ghost struct PathView {
    pub leading_colon: bool,
    pub segments: Seq<(Text, Text)>,
}

pub ghost enum BodyView {
    Unit,
    Paren(Seq<Option<PathView>>),
    Braced,
}

pub ghost struct VariantView {
    pub name: Text,
    pub has_attributes: bool,
    pub has_discriminant: bool,
    pub body: BodyView,
}

pub ghost struct GenericView {
    pub name: Text,
    pub is_type: bool,
}

pub ghost struct EnumView {
    pub name: Text,
    pub generics: Seq<GenericView>,
    pub variants: Seq<VariantView>,
}

impl View for PathSegment {
    type V = (Text, Text);

    open spec fn view(&self) -> (Text, Text) {
        (self.ident@, self.arguments@)
    }
}

impl View for TypePath {
    type V = PathView;

    open spec fn view(&self) -> PathView {
        PathView {
            leading_colon: self.leading_colon,
            segments: self.segments@.map_values(|s: PathSegment| s@),
        }
    }
}

pub open spec fn opt_path_view(o: Option<TypePath>) -> Option<PathView> {
    match o {
        Some(p) => Some(p@),
        None => None,
    }
}

impl View for VariantBody {
    type V = BodyView;

    open spec fn view(&self) -> BodyView {
        match self {
            VariantBody::Unit => BodyView::Unit,
            VariantBody::Paren(items) => BodyView::Paren(
                items@.map_values(|o: Option<TypePath>| opt_path_view(o)),
            ),
            VariantBody::Braced => BodyView::Braced,
        }
    }
}

impl View for VariantDecl {
    type V = VariantView;

    open spec fn view(&self) -> VariantView {
        VariantView {
            name: self.name@,
            has_attributes: self.has_attributes,
            has_discriminant: self.has_discriminant,
            body: self.body@,
        }
    }
}

impl View for GenericParamDecl {
    type V = GenericView;

    open spec fn view(&self) -> GenericView {
        GenericView { name: self.name@, is_type: self.is_type }
    }
}

impl View for EnumDecl {
    type V = EnumView;

    open spec fn view(&self) -> EnumView {
        EnumView {
            name: self.name@,
            generics: self.generics@.map_values(|g: GenericParamDecl| g@),
            variants: self.variants@.map_values(|v: VariantDecl| v@),
        }
    }
}

/// One case of the synthesised sum type: its name and the payload type it wraps.
pub struct Case {
    pub name: String,
    pub payload: TypePath,
}

pub ghost struct CaseView {
    pub name: Text,
    pub payload: PathView,
}

impl View for Case {
    type V = CaseView;

    open spec fn view(&self) -> CaseView {
        CaseView { name: self.name@, payload: self.payload@ }
    }
}

/// The path that names a single identifier and nothing else.
pub open spec fn ident_path(name: Text) -> PathView {
    PathView { leading_colon: false, segments: seq![(name, Seq::<char>::empty())] }
}

impl PathSegment {
    pub fn duplicate(&self) -> (r: PathSegment)
        ensures
            r@ == self@,
    {
        PathSegment { ident: self.ident.clone(), arguments: self.arguments.clone() }
    }
}

impl TypePath {
    /// A copy of the path, segment by segment.
    pub fn duplicate(&self) -> (r: TypePath)
        ensures
            r@ == self@,
    {
        let mut segments: Vec<PathSegment> = Vec::new();
        let mut i: usize = 0;
        while i < self.segments.len()
            invariant
                i <= self.segments@.len(),
                segments@.len() == i,
                forall|k: int| 0 <= k < i ==> (#[trigger] segments@[k])@ == self.segments@[k]@,
            decreases self.segments@.len() - i,
        {
            segments.push(self.segments[i].duplicate());
            i = i + 1;
        }
        let r = TypePath { leading_colon: self.leading_colon, segments };
        assert(r@.segments =~= self@.segments);
        r
    }
}

/// The path made of the identifier alone, used where a variant names no payload type.
pub fn ident_to_path(ident: &String) -> (r: TypePath)
    ensures
        r@ == ident_path(ident@),
{
    let segments = vec![PathSegment { ident: ident.clone(), arguments: String::new() }];
    let r = TypePath { leading_colon: false, segments };
    assert(r@.segments =~= seq![(ident@, Seq::<char>::empty())]);
    r
}

} // verus!
