use glyphs_plist::convert::{bool_from_plist, i64_from_plist, number_from_plist, u16_from_plist};
use glyphs_plist::font::{
    codepoints_chars, codepoints_from_plist, codepoints_to_plist, name_from_plist, ColorConversionError, CodepointsConversionError, KerningConversionError,
    PointConversionError,
};
use glyphs_plist::interop::{ContourPoint, PointKind};
use glyphs_plist::traits::{vec_from_plist, vec_to_plist};
use glyphs_plist::{ArrayConversionError, FromPlist, Kerning, ToPlist, ValueKind, VariantError};
use glyphs_plist::schema::{finish_record, take_field};
use glyphs_plist::{
    Axis, BoolConversionError, Case, Color, Direction, DownsizeToU16Error,
    FieldDescriptor, FontNumbers, FontStems, GlyphsFromPlistError, Metric, MetricType, Node,
    NodeType, Number, Path, PathShadow, Plist, Point, Requiredness, Settings,
};

fn s(t: &str) -> Plist {
    Plist::String(t.to_string())
}

fn dict(pairs: &[(&str, Plist)]) -> Plist {
    Plist::from_pairs(pairs.iter().map(|(k, v)| (k.to_string(), v.clone())).collect())
}

#[test]
fn error_on_unexpected_fields() {
    let with_unexpected = Plist::from_pairs(vec![
        ("foo".to_owned(), Plist::String("abc".to_owned())),
        ("bar".to_owned(), Plist::String("def".to_owned())),
    ]);
    let field = FieldDescriptor::new("_foo", Requiredness::Required, false);
    let mut entries = with_unexpected.into_dictionary();
    let foo = take_field(&mut entries, &field).unwrap();
    assert_eq!(foo, Some(s("abc")));
    let err = finish_record(entries, false).expect_err("shouldn't succeed with unknown fields");
    let GlyphsFromPlistError::UnrecognisedFields(fields) = err else {
        panic!("wrong error variant");
    };
    assert_eq!(fields, vec![String::from("bar")]);
}

#[test]
fn always_assumes_closed() {
    let ambiguous = Plist::from_pairs(vec![("nodes".to_string(), Plist::Array(vec![]))]);
    let path = Path::try_from(ambiguous).unwrap();
    assert!(path.closed);
}

#[test]
fn always_writes_closed() {
    let path_open = Path::new(false);
    let plist = path_open.to_plist();
    assert_eq!(plist.get("closed"), Some(&Plist::Integer(0)));

    let path_closed = Path::new(true);
    let plist = path_closed.to_plist();
    assert_eq!(plist.get("closed"), Some(&Plist::Integer(1)));
}

#[test]
fn roundtrip_empty_path() {
    let path_source = r#"
        {
            nodes = ();
        }
    "#;

    let plist = Plist::parse(path_source).unwrap();
    let path = Path::try_from(plist).unwrap();
    assert!(path.nodes.is_empty());

    let written = Path::try_from(Plist::parse(path_source).unwrap()).unwrap().to_plist();
    assert_eq!(written.get("nodes"), Some(&Plist::Array(vec![])));
    let path_again = Path::try_from(written).unwrap();
    assert_eq!(path, path_again);

    let (points, closed) = path_again.into_contour().unwrap();
    assert!(points.is_empty());
    let path_from_contour = Path::from_contour(points, closed);
    assert_eq!(path, path_from_contour);
}

#[test]
fn open_contour_smooth_point() {
    let path_source = r#"
        {
            closed = 0;
            nodes = (
                (303,128,ls)
            );
        }
    "#;

    let plist = Plist::parse(path_source).unwrap();
    let path: Path = Path::try_from(plist).unwrap();
    let (points, closed) = path.into_contour().unwrap();

    assert!(!closed);
    assert_eq!(points, vec![ContourPoint {
        x: Number::Integer(303),
        y: Number::Integer(128),
        kind: PointKind::Move,
        smooth: true,
        name: None,
    }]);
}

#[test]
fn roundtrip_point_name() {
    let point = || ContourPoint {
        x: Number::Integer(0),
        y: Number::Integer(0),
        kind: PointKind::Move,
        smooth: false,
        name: Some("hello world".to_string()),
    };

    let node = Node::from_point(point());
    let point_again = node.into_point().unwrap();

    assert_eq!(point().name, point_again.name);
}

#[test]
fn closed_contours_keep_the_start_node_last() {
    let plist = Plist::parse("{ nodes = ((1,1,o), (2,2,c), (0,0,l)); }").unwrap();
    let path = Path::try_from(plist).unwrap();
    let (points, closed) = path.into_contour().unwrap();
    assert!(closed);
    assert_eq!(points[0].kind, PointKind::Line);
    assert_eq!(points[0].x, Number::Integer(0));
    assert_eq!(points[2].kind, PointKind::Curve);
    let back = Path::from_contour(points, closed);
    assert_eq!(back.nodes[2].node_type, NodeType::Line);
    assert_eq!(back.nodes[0].node_type, NodeType::OffCurve);
    let bad = Plist::parse("{ nodes = ((1,1,l,{name = \"\\001\";})); }").unwrap();
    assert!(Path::try_from(bad).unwrap().into_contour().is_err());
}

#[test]
fn path_nodes_and_edits() {
    let plist = Plist::parse("{ closed = 0; nodes = ((303,128,ls), (1.5,2,o,{name = a;})); }").unwrap();
    let mut path = Path::try_from(plist).unwrap();
    assert!(!path.closed);
    assert_eq!(path.nodes.len(), 2);
    assert_eq!(path.nodes[0].pt, Point { x: Number::Integer(303), y: Number::Integer(128) });
    assert_eq!(path.nodes[0].node_type, NodeType::LineSmooth);
    assert_eq!(path.nodes[1].attr.as_ref().and_then(|a| a.name.clone()), Some("a".to_string()));
    path.add(Point { x: Number::Integer(0), y: Number::Integer(0) }, NodeType::Curve);
    path.rotate_left(1);
    assert_eq!(path.nodes[2].node_type, NodeType::LineSmooth);
    path.reverse();
    assert_eq!(path.nodes[0].node_type, NodeType::LineSmooth);
    assert_eq!(path.nodes[2].node_type, NodeType::OffCurve);
    let text = path.to_plist().to_text();
    assert!(text.contains("closed = 0;"));
}

#[test]
fn path_with_bad_node_is_an_error() {
    let plist = Plist::parse("{ nodes = ((1,2,zz)); }").unwrap();
    assert!(matches!(Path::try_from(plist), Err(GlyphsFromPlistError::Array(_))));
    let plist = Plist::parse("{ closed = 1; }").unwrap();
    assert!(matches!(Path::try_from(plist), Err(GlyphsFromPlistError::MissingField(f)) if f == "nodes"));
}

#[test]
fn node_tuples() {
    let node = Node::try_from(Plist::parse("(303,128,ls)").unwrap()).unwrap();
    assert_eq!(node.to_plist().to_text(), "(\n303,\n128,\nls\n)");
    assert!(matches!(Node::try_from(Plist::parse("(1)").unwrap()), Err(glyphs_plist::font::NodeConversionError::MissingY)));
    assert!(matches!(Node::try_from(Plist::parse("(a,1,l)").unwrap()), Err(glyphs_plist::font::NodeConversionError::NotFloatX)));
    assert!(matches!(Node::try_from(Plist::parse("(1,2)").unwrap()), Err(glyphs_plist::font::NodeConversionError::MissingType)));
    assert!(matches!(Node::try_from(Plist::parse("(1,2,x)").unwrap()), Err(glyphs_plist::font::NodeConversionError::InvalidType(_))));
    assert!(matches!(Node::try_from(Plist::parse("(1,2,l,3)").unwrap()), Err(glyphs_plist::font::NodeConversionError::InvalidAttr(_))));
    assert!(matches!(Node::try_from(Plist::parse("(1,2,l,{},5)").unwrap()), Err(glyphs_plist::font::NodeConversionError::WrongVariant)));
    assert!(matches!(Node::try_from(s("x")), Err(glyphs_plist::font::NodeConversionError::WrongVariant)));
}

#[test]
fn rest_preservation() {
    let source = "{ disablesNiceNames = 1; foo = a; bar = (1, 2); }";
    let settings = Settings::try_from(Plist::parse(source).unwrap()).unwrap();
    assert!(settings.disables_nice_names);
    assert!(!settings.disables_automatic_alignment);
    assert_eq!(settings.other_stuff.len(), 2);
    let written = settings.to_plist();
    assert_eq!(written, Plist::parse(source).unwrap());

    let stems = Plist::parse("{ name = x; foo = a; bar = (1, 2); }").unwrap();
    match FontStems::try_from(stems) {
        Err(GlyphsFromPlistError::UnrecognisedFields(keys)) => {
            assert_eq!(keys, vec!["bar".to_string(), "foo".to_string()]);
        },
        other => panic!("unexpected result {other:?}"),
    }
}

#[test]
fn default_suppression() {
    let axis = Axis { name: "Weight".to_string(), tag: "wght".to_string(), hidden: false };
    let written = axis.to_plist();
    assert_eq!(written.get("hidden"), None);
    assert_eq!(written.get("name"), Some(&s("Weight")));
    let axis = Axis { name: "Weight".to_string(), tag: "wght".to_string(), hidden: true };
    let written = axis.to_plist();
    assert_eq!(written.get("hidden"), Some(&Plist::Integer(1)));
    assert_eq!(Axis::try_from(written).unwrap().hidden, true);

    let settings = Settings::new();
    assert_eq!(settings.to_plist(), Plist::from_pairs(vec![]));
}

#[test]
fn records_read_and_write() {
    let axis = Axis::try_from(Plist::parse("{ name = Weight; tag = wght; }").unwrap()).unwrap();
    assert_eq!(axis, Axis { name: "Weight".to_string(), tag: "wght".to_string(), hidden: false });
    assert!(matches!(
        Axis::try_from(Plist::parse("{ tag = wght; }").unwrap()),
        Err(GlyphsFromPlistError::MissingField(f)) if f == "name"
    ));
    assert!(matches!(Axis::try_from(s("x")), Err(GlyphsFromPlistError::Variant(_))));

    let numbers = FontNumbers::try_from(Plist::parse("{ name = one; }").unwrap()).unwrap();
    assert_eq!(numbers.name, "one");
    assert_eq!(numbers.to_plist(), Plist::parse("{ name = one; }").unwrap());

    let stems = FontStems::try_from(Plist::parse("{ name = s; horizontal = 1; }").unwrap()).unwrap();
    assert!(stems.horizontal);
    assert_eq!(stems.filter, None);

    let metric = Metric::try_from(Plist::parse("{ type = \"x-height\"; }").unwrap()).unwrap();
    assert_eq!(metric.type_, Some(MetricType::XHeight));
    assert_eq!(metric.to_plist(), Plist::parse("{ type = \"x-height\"; }").unwrap());
    assert!(matches!(
        Metric::try_from(Plist::parse("{ type = nope; }").unwrap()),
        Err(GlyphsFromPlistError::MetricType(_))
    ));

    let shadow = PathShadow::try_from(
        Plist::parse("{ blur = 2; color = (0, 0, \"0\", 255); offsetX = 1; offsetY = \"-1\"; }").unwrap(),
    );
    assert!(matches!(shadow, Err(GlyphsFromPlistError::Variant(_))));
    let shadow = PathShadow::try_from(
        Plist::parse("{ blur = b; color = (0, 0, \"7\", 255); offsetX = x; offsetY = y; }").unwrap(),
    )
    .unwrap();
    assert_eq!(shadow.color, vec![0, 0, 7, 255]);
    assert!(matches!(
        PathShadow::try_from(Plist::parse("{ blur = b; color = (a); offsetX = x; offsetY = y; }").unwrap()),
        Err(GlyphsFromPlistError::Array(_))
    ));
}

#[test]
fn wire_keys_are_lower_camel_case() {
    let f = FieldDescriptor::new("disables_nice_names", Requiredness::DefaultFromType, false);
    assert_eq!(f.wire_key, "disablesNiceNames");
    let f = FieldDescriptor::renamed("reference", "ref", Requiredness::Required, true);
    assert_eq!(f.wire_key, "ref");
}

#[test]
fn bounded_integer_errors() {
    assert!(matches!(u16_from_plist(Plist::Integer(70000)), Err(DownsizeToU16Error::OutOfBounds(70000))));
    assert!(matches!(u16_from_plist(s("abc")), Err(DownsizeToU16Error::WrongVariant(_))));
    assert!(matches!(u16_from_plist(Plist::Integer(-1)), Err(DownsizeToU16Error::OutOfBounds(-1))));
    assert_eq!(u16_from_plist(s("65535")).unwrap(), 65535);
}

#[test]
fn scalar_conversions() {
    assert_eq!(bool_from_plist(Plist::Integer(1)).unwrap(), true);
    assert_eq!(bool_from_plist(s("0")).unwrap(), false);
    assert!(matches!(bool_from_plist(Plist::Integer(2)), Err(BoolConversionError::BadNumber(2))));
    assert!(matches!(bool_from_plist(s("yes")), Err(BoolConversionError::WrongVariant(_))));
    assert_eq!(i64_from_plist(s("-12")).unwrap(), -12);
    assert!(i64_from_plist(Plist::Float("1.5".to_string())).is_err());
    assert_eq!(number_from_plist(s("1.5")).unwrap(), Number::Float("1.5".to_string()));
    assert_eq!(number_from_plist(s("15")).unwrap(), Number::Integer(15));
    assert!(number_from_plist(s("x")).is_err());
}

#[test]
fn enum_conversions() {
    assert_eq!(Direction::try_from(s("LTR")).unwrap(), Direction::Ltr);
    assert!(Direction::try_from(s("ltr")).is_err());
    assert_eq!(Case::try_from(s("noCase")).unwrap(), Case::NoCase);
    assert_eq!(Case::SmallCaps.to_plist(), s("smallCaps"));
    assert_eq!(MetricType::CapHeight.as_str(), "cap height");
    assert_eq!(NodeType::from_str("qs").unwrap(), NodeType::QCurveSmooth);
    assert_eq!(NodeType::OffCurve.glyphs_str(), "o");
    assert!(NodeType::try_from(Plist::Integer(1)).is_err());
    assert_eq!(
        glyphs_plist::AnchorOrientation::try_from(s("right")).unwrap(),
        glyphs_plist::AnchorOrientation::Right
    );
    assert!(matches!(
        glyphs_plist::AnchorOrientation::try_from(s("up")),
        Err(glyphs_plist::font::AnchorOrientationConversionError::UnknownOrientation(t)) if t == "up"
    ));
    assert_eq!(glyphs_plist::InstanceType::try_from(s("variable")).unwrap(), glyphs_plist::InstanceType::Variable);
}

#[test]
fn colors() {
    assert_eq!(Color::try_from(Plist::Integer(5)).unwrap(), Color::Index(5));
    assert_eq!(Color::try_from(Plist::parse("(1, 2)").unwrap()).unwrap(), Color::GreyAlpha(1, 2));
    assert_eq!(Color::try_from(Plist::parse("(1, 2, 3, 4)").unwrap()).unwrap(), Color::Rgba(1, 2, 3, 4));
    assert_eq!(Color::try_from(Plist::parse("(1, 2, 3, 4, 5)").unwrap()).unwrap(), Color::Cmyka(1, 2, 3, 4, 5));
    assert_eq!(Color::try_from(Plist::parse("(1, 2, 3)").unwrap()), Err(ColorConversionError::UnsupportedArray));
    assert_eq!(Color::try_from(Plist::parse("(1, 256)").unwrap()), Err(ColorConversionError::OutOfBounds(256)));
    assert_eq!(Color::try_from(Plist::parse("(1, x)").unwrap()), Err(ColorConversionError::WrongVariant));
    assert_eq!(Color::Rgba(1, 2, 3, 4).to_plist(), Plist::parse("(1, 2, 3, 4)").unwrap());
}

#[test]
fn codepoints() {
    let cps = codepoints_from_plist(Plist::parse("(65, 66, 65)").unwrap()).unwrap();
    assert_eq!(codepoints_chars(&cps), vec!['A', 'B']);
    assert_eq!(cps, norad::Codepoints::new(['A', 'B']));
    assert_eq!(codepoints_to_plist(&cps), Plist::parse("(65, 66)").unwrap());
    let one = codepoints_from_plist(Plist::Integer(32)).unwrap();
    assert_eq!(codepoints_to_plist(&one), Plist::Integer(32));
    assert_eq!(codepoints_from_plist(Plist::Integer(0xD800)), Err(CodepointsConversionError::InvalidCodepoint(0xD800)));
    assert_eq!(codepoints_from_plist(Plist::Integer(0x110000)), Err(CodepointsConversionError::InvalidCodepoint(0x110000)));
    assert_eq!(codepoints_from_plist(Plist::Integer(-1)), Err(CodepointsConversionError::InvalidCodepoint(-1)));
    assert_eq!(codepoints_from_plist(s("A")), Err(CodepointsConversionError::WrongVariant));
    assert_eq!(codepoints_from_plist(Plist::parse("(65, x)").unwrap()), Err(CodepointsConversionError::WrongVariant));
}

#[test]
fn points_and_scales() {
    let p = Point::try_from(Plist::parse("(1, 2.5)").unwrap()).unwrap();
    assert_eq!(p.y, Number::Float("2.5".to_string()));
    assert_eq!(p.to_plist(), Plist::parse("(1, 2.5)").unwrap());
    assert_eq!(Point::try_from(Plist::parse("(1)").unwrap()), Err(PointConversionError::WrongVariant));
    assert_eq!(Point::try_from(Plist::parse("(1, a)").unwrap()), Err(PointConversionError::NotFloatY));
    let sc = glyphs_plist::Scale::try_from(Plist::parse("(-1, -1)").unwrap()).unwrap();
    assert_eq!(sc.horizontal, Number::Integer(-1));
}

#[test]
fn dict_helper_builds_dictionaries() {
    let d = dict(&[("a", Plist::Integer(1))]);
    assert_eq!(d.get("a"), Some(&Plist::Integer(1)));
}

#[test]
fn kerning_tables() {
    let source = "{ m01 = { A = { V = -50; W = 1.5; }; T = { o = 3; }; }; m02 = { }; }";
    let kerning = Kerning::try_from(Plist::parse(source).unwrap()).unwrap();
    assert_eq!(kerning.masters.len(), 2);
    assert_eq!(kerning.masters[0].1[0].1[0], ("V".to_string(), Number::Integer(-50)));
    assert_eq!(kerning.to_plist(), Plist::parse(source).unwrap());

    let bad_leaf = Plist::parse("{ m01 = { A = { V = x; }; }; }").unwrap();
    assert_eq!(
        Kerning::try_from(bad_leaf),
        Err(KerningConversionError::NotFloatValue { left_name: "A".to_string(), right_name: "V".to_string() })
    );
    assert_eq!(Kerning::try_from(Plist::parse("{ m01 = (1); }").unwrap()), Err(KerningConversionError::WrongVariant));
    assert_eq!(Kerning::try_from(Plist::parse("{ m01 = { A = 1; }; }").unwrap()), Err(KerningConversionError::WrongVariant));
    assert_eq!(Kerning::try_from(s("x")), Err(KerningConversionError::WrongVariant));
    assert_eq!(
        Kerning::try_from(Plist::parse("{ m01 = { A = { \"\\001\" = 1; }; }; }").unwrap()),
        Err(KerningConversionError::InvalidName("\u{1}".to_string()))
    );
}

#[test]
fn glyph_names() {
    assert_eq!(name_from_plist(s("A.alt")).unwrap(), "A.alt");
    assert_eq!(name_from_plist(Plist::Float("inf".to_string())).unwrap(), "infinity");
    assert_eq!(name_from_plist(Plist::Float("-Infinity".to_string())).unwrap(), "infinity");
    assert_eq!(name_from_plist(Plist::Float("NaN".to_string())).unwrap(), "nan");
    assert!(name_from_plist(Plist::Float("1.5".to_string())).is_err());
    assert!(name_from_plist(s("")).is_err());
    assert!(name_from_plist(s("a\u{7f}")).is_err());
    assert!(name_from_plist(Plist::Integer(1)).is_err());
    assert_eq!(name_from_plist(Plist::parse("infinity").unwrap()).unwrap(), "infinity");
}

#[test]
fn arrays_convert_element_by_element() {
    use_traits();
}

fn use_traits() {
    let ints: Vec<i64> = vec_from_plist(Plist::parse("(1, \"2\", 3)").unwrap()).unwrap();
    assert_eq!(ints, vec![1, 2, 3]);
    let bad = vec_from_plist::<i64>(Plist::parse("(1, x)").unwrap());
    assert!(matches!(bad, Err(ArrayConversionError::Element(VariantError(ValueKind::Integer, _)))));
    assert!(matches!(vec_from_plist::<String>(Plist::Integer(1)), Err(ArrayConversionError::WrongVariant)));
    let empty: Vec<String> = vec_from_plist(Plist::Array(vec![])).unwrap();
    assert!(empty.is_empty());
    assert_eq!(vec_to_plist(vec![true, false]), Plist::parse("(1, 0)").unwrap());
    let axes: Vec<Axis> = vec_from_plist(Plist::parse("({ name = a; tag = b; })").unwrap()).unwrap();
    assert_eq!(axes[0].tag, "b");
    assert_eq!(vec_to_plist(axes), Plist::parse("({ name = a; tag = b; })").unwrap());
    assert_eq!(<Direction as FromPlist>::from_plist(s("RTL")).unwrap(), Direction::Rtl);
    assert_eq!(<u16 as ToPlist>::to_plist(7), Plist::Integer(7));
}

#[test]
fn record_errors_are_exact() {
    match Axis::try_from(Plist::parse("{ name = (1); tag = t; }").unwrap()) {
        Err(GlyphsFromPlistError::Variant(VariantError(ValueKind::String, v))) => {
            assert_eq!(v, Plist::Array(vec![Plist::Integer(1)]))
        },
        other => panic!("unexpected result {other:?}"),
    }
    assert!(matches!(
        Axis::try_from(Plist::parse("{ name = a; tag = t; hidden = 2; }").unwrap()),
        Err(GlyphsFromPlistError::Bool(BoolConversionError::BadNumber(2)))
    ));
    assert!(matches!(
        Axis::try_from(Plist::parse("{ name = a; }").unwrap()),
        Err(GlyphsFromPlistError::MissingField(f)) if f == "tag"
    ));
    assert!(matches!(
        PathShadow::try_from(Plist::parse("{ blur = b; color = 1; offsetX = x; offsetY = y; }").unwrap()),
        Err(GlyphsFromPlistError::Array(ArrayConversionError::WrongVariant))
    ));
}

#[test]
fn kerning_errors_name_the_pair() {
    assert_eq!(
        Kerning::try_from(Plist::parse("{ m01 = { A = { V = 1; W = x; }; }; }").unwrap()),
        Err(KerningConversionError::NotFloatValue { left_name: "A".to_string(), right_name: "W".to_string() })
    );
    assert_eq!(
        Kerning::try_from(Plist::parse("{ m01 = { \"\" = { V = 1; }; }; }").unwrap()),
        Err(KerningConversionError::InvalidName(String::new()))
    );
    assert_eq!(
        Kerning::try_from(Plist::parse("{ m01 = { A = { V = 1; }; }; m02 = 3; }").unwrap()),
        Err(KerningConversionError::WrongVariant)
    );
}

#[test]
fn array_elements_keep_their_order() {
    let v: Vec<u16> = vec_from_plist(Plist::parse("(3, 1, 2)").unwrap()).unwrap();
    assert_eq!(v, vec![3, 1, 2]);
    assert!(matches!(
        vec_from_plist::<u16>(Plist::parse("(1, 70000, x)").unwrap()),
        Err(ArrayConversionError::Element(DownsizeToU16Error::OutOfBounds(70000)))
    ));
}
