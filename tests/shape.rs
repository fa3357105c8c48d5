use core::cmp::Ordering;
use struct_variant::model::{
    EnumDecl, GenericParamDecl, PathSegment, TypePath, VariantBody, VariantDecl, ident_to_path,
};
use struct_variant::order::{path_cmp, text_cmp};
use struct_variant::synth::{struct_variant, Failure, Synthesis};
use struct_variant::validate::{validate, Problem};

fn path(leading_colon: bool, segments: &[(&str, &str)]) -> TypePath {
    TypePath {
        leading_colon,
        segments: segments
            .iter()
            .map(|(i, a)| PathSegment { ident: i.to_string(), arguments: a.to_string() })
            .collect(),
    }
}

fn plain(name: &str) -> VariantDecl {
    VariantDecl {
        name: name.to_string(),
        has_attributes: false,
        has_discriminant: false,
        body: VariantBody::Unit,
    }
}

fn typed(name: &str, payload: TypePath) -> VariantDecl {
    VariantDecl {
        name: name.to_string(),
        has_attributes: false,
        has_discriminant: false,
        body: VariantBody::Paren(vec![Some(payload)]),
    }
}

fn decl(name: &str, variants: Vec<VariantDecl>) -> EnumDecl {
    EnumDecl { name: name.to_string(), generics: vec![], variants }
}

fn bounds(names: &[&str]) -> Vec<TypePath> {
    names.iter().map(|n| ident_to_path(&n.to_string())).collect()
}

fn path_text(p: &TypePath) -> String {
    let segs: Vec<String> =
        p.segments.iter().map(|s| format!("{}{}", s.ident, s.arguments)).collect();
    format!("{}{}", if p.leading_colon { "::" } else { "" }, segs.join("::"))
}

fn summary(s: &Synthesis) -> Vec<String> {
    let mut out = Vec::new();
    for c in &s.cases {
        out.push(format!("case {}({})", c.name, path_text(&c.payload)));
    }
    for c in &s.conversions {
        out.push(format!("from {} into {}", path_text(&c.payload), c.case_name));
    }
    for p in &s.projections {
        out.push(format!("as {}: {}", p.capability, p.arms.join(",")));
    }
    out.push(format!("outlived: {}", s.outlived.join(",")));
    out
}

fn synthesize(d: &EnumDecl, b: &[&str]) -> Synthesis {
    match struct_variant(d, &bounds(b)) {
        Ok(s) => s,
        Err(_) => panic!("synthesis failed"),
    }
}

fn problems(d: &EnumDecl, b: &[&str]) -> Vec<Problem> {
    match struct_variant(d, &bounds(b)) {
        Err(Failure::Variants(ps)) => ps,
        _ => panic!("expected variant findings"),
    }
}

trait Shape {
    fn area(&self) -> f64;
}

#[derive(Debug)]
struct Circle {
    radius: usize,
}

impl Shape for Circle {
    fn area(&self) -> f64 {
        core::f64::consts::PI * self.radius.pow(2) as f64
    }
}

#[derive(Debug)]
struct Rectangle {
    width: usize,
    height: usize,
}

impl Shape for Rectangle {
    fn area(&self) -> f64 {
        self.width as f64 * self.height as f64
    }
}

// The sum type in the form the synthesis below describes: cases Circle and
// Rectangle, a conversion from each payload, and one projection to `Shape`.
#[derive(Debug)]
enum ShapeEnum {
    Circle(Circle),
    Rectangle(Rectangle),
}

impl From<Circle> for ShapeEnum {
    fn from(value: Circle) -> Self {
        Self::Circle(value)
    }
}

impl From<Rectangle> for ShapeEnum {
    fn from(value: Rectangle) -> Self {
        Self::Rectangle(value)
    }
}

impl<'a> AsRef<dyn Shape + 'a> for ShapeEnum {
    fn as_ref(&self) -> &(dyn Shape + 'a) {
        match self {
            ShapeEnum::Circle(ref value) => value,
            ShapeEnum::Rectangle(ref value) => value,
        }
    }
}

#[test]
fn test() {
    let d = decl("ShapeEnum", vec![plain("Circle"), plain("Rectangle")]);
    let s = synthesize(&d, &["Shape"]);
    assert_eq!(
        summary(&s),
        vec![
            "case Circle(Circle)",
            "case Rectangle(Rectangle)",
            "from Circle into Circle",
            "from Rectangle into Rectangle",
            "as Shape: Circle,Rectangle",
            "outlived: ",
        ]
    );
    let circle: ShapeEnum = Circle { radius: 2 }.into();
    let rectangle: ShapeEnum = Rectangle { width: 2, height: 3 }.into();
    let c: &dyn Shape = circle.as_ref();
    let r: &dyn Shape = rectangle.as_ref();
    assert!((c.area() - 12.566370614359172).abs() < 1e-12);
    assert_eq!(r.area(), 6.0);
    assert!(matches!(circle, ShapeEnum::Circle(Circle { radius: 2 })));
    assert!(matches!(rectangle, ShapeEnum::Rectangle(Rectangle { width: 2, height: 3 })));
}

#[test]
fn test_multi() {
    let d = decl("ShapeEnumWithDebug", vec![plain("Circle"), plain("Rectangle")]);
    let s = synthesize(&d, &["Shape", "Debug"]);
    assert_eq!(s.projections.len(), 2);
    assert_eq!(s.projections[0].capability, "Shape");
    assert_eq!(s.projections[1].capability, "Debug");
    for p in &s.projections {
        assert_eq!(p.arms, vec!["Circle".to_string(), "Rectangle".to_string()]);
    }
}

#[test]
fn no_bounds_gives_no_projection() {
    let d = decl("ShapeEnumNoBounds", vec![plain("Circle"), plain("Rectangle")]);
    let s = synthesize(&d, &[]);
    assert_eq!(s.cases.len(), 2);
    assert_eq!(s.conversions.len(), 2);
    assert_eq!(s.projections.len(), 0);
}

#[test]
fn inline_fields_are_rejected() {
    let braced = VariantDecl {
        name: "Circle".to_string(),
        has_attributes: false,
        has_discriminant: false,
        body: VariantBody::Braced,
    };
    let pair = VariantDecl {
        name: "Rectangle".to_string(),
        has_attributes: false,
        has_discriminant: false,
        body: VariantBody::Paren(vec![
            Some(path(false, &[("Rectangle", "")])),
            Some(path(false, &[("Rectangle", "")])),
        ]),
    };
    let d = decl("ShapeEnumShapeBound", vec![braced, pair]);
    let ps = problems(&d, &["Shape"]);
    assert_eq!(ps, vec![Problem::Fields { at: 0 }, Problem::Fields { at: 1 }]);
    assert_eq!(ps[0].message(&d.variants), "Expected plain name: found fields");
}

#[test]
fn non_path_payload_is_rejected() {
    let v = VariantDecl {
        name: "Slice".to_string(),
        has_attributes: false,
        has_discriminant: false,
        body: VariantBody::Paren(vec![None]),
    };
    let d = decl("E", vec![v]);
    assert_eq!(problems(&d, &[]), vec![Problem::Fields { at: 0 }]);
}

#[test]
fn duplicate_names_point_to_first() {
    let d = decl("E", vec![plain("Circle"), plain("Rectangle"), plain("Circle"), plain("Circle")]);
    let ps = problems(&d, &["Shape"]);
    assert_eq!(
        ps,
        vec![Problem::Duplicate { at: 2, first: 0 }, Problem::Duplicate { at: 3, first: 0 }]
    );
    assert_eq!(ps[0].message(&d.variants), "Duplicate variant name: Circle");
}

#[test]
fn all_findings_are_collected() {
    let mut a = plain("A");
    a.has_attributes = true;
    let mut b = plain("B");
    b.has_discriminant = true;
    b.body = VariantBody::Braced;
    let d = decl("E", vec![a, b, plain("A")]);
    let ps = validate(&d.variants);
    assert_eq!(
        ps,
        vec![
            Problem::Attributes { at: 0 },
            Problem::Fields { at: 1 },
            Problem::Discriminant { at: 1 },
            Problem::Duplicate { at: 2, first: 0 },
        ]
    );
    assert_eq!(ps[0].message(&d.variants), "Expected plain name: found attributes");
    assert_eq!(ps[2].message(&d.variants), "Expected plain name: found discriminant");
}

#[test]
fn qualified_capability_is_rejected() {
    let d = decl("E", vec![plain("Circle")]);
    let b = vec![ident_to_path(&"Shape".to_string()), path(false, &[("fmt", ""), ("Debug", "")])];
    assert!(matches!(struct_variant(&d, &b), Err(Failure::Capability { at: 1 })));
    let c = vec![path(true, &[("Shape", "")])];
    assert!(matches!(struct_variant(&d, &c), Err(Failure::Capability { at: 0 })));
    let g = vec![path(false, &[("Marker", "<u8>")])];
    assert!(matches!(struct_variant(&d, &g), Err(Failure::Capability { at: 0 })));
}

#[test]
fn capability_checked_before_variants() {
    let d = decl("E", vec![plain("A"), plain("A")]);
    let b = vec![path(false, &[("a", ""), ("B", "")])];
    assert!(matches!(struct_variant(&d, &b), Err(Failure::Capability { at: 0 })));
}

#[test]
fn permuted_declarations_synthesise_alike() {
    let one = decl("E", vec![plain("Zeta"), plain("Alpha"), plain("Mid")]);
    let two = decl("E", vec![plain("Mid"), plain("Zeta"), plain("Alpha")]);
    let a = summary(&synthesize(&one, &["Shape"]));
    let b = summary(&synthesize(&two, &["Shape"]));
    assert_eq!(a, b);
    assert_eq!(a[0], "case Alpha(Alpha)");
    assert_eq!(a[1], "case Mid(Mid)");
    assert_eq!(a[2], "case Zeta(Zeta)");
}

#[test]
fn repeated_runs_are_identical() {
    let d = decl("E", vec![plain("B"), typed("A", path(true, &[("x", ""), ("A", "")]))]);
    assert_eq!(summary(&synthesize(&d, &["T"])), summary(&synthesize(&d, &["T"])));
}

#[test]
fn renamed_variant_keeps_its_payload() {
    let d = decl("ShapeEnum", vec![typed("Round", path(false, &[("Circle", "")])), plain("Rectangle")]);
    let s = synthesize(&d, &["Shape"]);
    assert_eq!(
        summary(&s),
        vec![
            "case Rectangle(Rectangle)",
            "case Round(Circle)",
            "from Rectangle into Rectangle",
            "from Circle into Round",
            "as Shape: Rectangle,Round",
            "outlived: ",
        ]
    );
}

#[test]
fn generic_type_parameters_are_outlived() {
    let mut d = decl(
        "Generic",
        vec![
            typed("Value", path(false, &[("Value", "<X>")])),
            typed("Phantom", path(false, &[("Phantom", "<Y>")])),
        ],
    );
    d.generics = vec![
        GenericParamDecl { name: "'b".to_string(), is_type: false },
        GenericParamDecl { name: "X".to_string(), is_type: true },
        GenericParamDecl { name: "N".to_string(), is_type: false },
        GenericParamDecl { name: "Y".to_string(), is_type: true },
    ];
    let s = synthesize(&d, &["Marker"]);
    assert_eq!(s.outlived, vec!["X".to_string(), "Y".to_string()]);
    assert_eq!(summary(&s)[0], "case Phantom(Phantom<Y>)");
    assert_eq!(summary(&s)[1], "case Value(Value<X>)");
}

#[test]
fn empty_declaration_synthesises_empty_type() {
    let d = decl("Empty", vec![]);
    let s = synthesize(&d, &["Shape"]);
    assert_eq!(s.cases.len(), 0);
    assert_eq!(s.projections.len(), 1);
    assert!(s.projections[0].arms.is_empty());
}

#[test]
fn text_order_is_lexicographic() {
    let t = |a: &str, b: &str| text_cmp(&a.to_string(), &b.to_string());
    assert_eq!(t("Circle", "Rectangle"), Ordering::Less);
    assert_eq!(t("Rect", "Rectangle"), Ordering::Less);
    assert_eq!(t("Round", "Rectangle"), Ordering::Greater);
    assert_eq!(t("Zeta", "alpha"), Ordering::Less);
    assert_eq!(t("", ""), Ordering::Equal);
    assert_eq!(t("Circle", "Circle"), Ordering::Equal);
}

#[test]
fn path_order_rules() {
    let a = path(true, &[("z", "")]);
    let b = path(false, &[("a", "")]);
    assert_eq!(path_cmp(&a, &b), Ordering::Less);
    assert_eq!(path_cmp(&b, &a), Ordering::Greater);
    let short = path(false, &[("a", ""), ("B", "")]);
    let long = path(false, &[("a", ""), ("B", ""), ("C", "")]);
    assert_eq!(path_cmp(&short, &long), Ordering::Less);
    assert_eq!(path_cmp(&long, &short), Ordering::Greater);
    let other = path(false, &[("a", ""), ("C", "")]);
    assert_eq!(path_cmp(&short, &other), Ordering::Less);
    assert_eq!(path_cmp(&short, &path(false, &[("a", ""), ("B", "")])), Ordering::Equal);
}
