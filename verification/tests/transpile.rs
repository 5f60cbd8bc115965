use rust_decimal::Decimal;

use svg2asy::asy::{format_dec, Asy, Dec};
use svg2asy::color::Color;
use svg2asy::group::{Group, Node, Transform};
use svg2asy::path::{split_subpaths, Path, PathSegment, PaintOrder};
use svg2asy::pen::{Fill, FillRule, LineCap, LineJoin, Paint, Stroke};
use svg2asy::svg2asy::{generate_ids, transpile_tree, Tree};
use svg2asy::{AsyError, AsyOptions, Warning};

fn opts() -> AsyOptions {
    let o = AsyOptions::new();
    assert_eq!(o.precision, 6);
    o
}

/// The decimal of a float, exactly as the host converts coordinates.
fn dec_of(f: f64) -> Dec {
    let d = Decimal::from_f64_retain(f).expect("value out of range");
    let m = d.mantissa();
    Dec {
        neg: m < 0,
        coeff: m.unsigned_abs(),
        scale: d.scale(),
    }
}

fn n(v: i64) -> Dec {
    Dec {
        neg: v < 0,
        coeff: v.unsigned_abs() as u128,
        scale: 0,
    }
}

fn fmt(f: f64, p: u32) -> String {
    format_dec(&dec_of(f), p)
}

#[test]
fn format_strips_trailing_zeros() {
    assert_eq!(fmt(0.1, 6), "0.1");
    assert_eq!(fmt(0.25, 6), "0.25");
    assert_eq!(fmt(10.0, 6), "10");
}

#[test]
fn format_integers_plain() {
    assert_eq!(fmt(1.0, 6), "1");
    assert_eq!(fmt(0.0, 6), "0");
    assert_eq!(fmt(-3.0, 6), "-3");
}

#[test]
fn format_large_magnitude_scientific() {
    assert_eq!(fmt(1e20, 6), "1.000000e20");
    assert_eq!(fmt(2.5e21, 3), "2.500e21");
}

#[test]
fn format_rounds_to_precision() {
    // Both roundings apply and the tighter one wins: four decimal
    // places would give 3.1416, but four significant figures give less.
    assert_eq!(fmt(3.14159265358979, 4), "3.142");
    assert_eq!(fmt(-3.14159265358979, 4), "-3.142");
    assert_eq!(fmt(3.14159265358979, 6), "3.14159");
    assert_eq!(fmt(123456.75, 6), "123457");
}

#[test]
fn format_bankers_rounding() {
    // 0.125 and 0.375 are exact binary fractions; ties go to the even
    // neighbour.
    assert_eq!(fmt(0.125, 2), "0.12");
    assert_eq!(fmt(0.375, 2), "0.38");
}

#[test]
fn format_round_trip_within_tolerance() {
    for &f in &[0.1, -2.5, 3.14159265358979, 1234.5678, 0.000123456] {
        let s = fmt(f, 6);
        let back: f64 = s.parse().expect("formatted text parses");
        // Six significant figures keep a relative error below 1e-5.
        assert!((back - f).abs() <= 1e-5 * f.abs().max(1.0));
    }
}

#[test]
fn color_table_names() {
    let o = opts();
    assert_eq!(Color { red: 255, green: 0, blue: 0 }.transpile(&o), "red");
    assert_eq!(Color { red: 0, green: 0, blue: 255 }.transpile(&o), "blue");
    assert_eq!(Color { red: 0, green: 0, blue: 0 }.transpile(&o), "black");
    assert_eq!(Color { red: 243, green: 243, blue: 243 }.transpile(&o), "palegray");
    assert_eq!(Color { red: 0, green: 128, blue: 255 }.transpile(&o), "royalblue");
}

#[test]
fn color_hex_fallback() {
    let o = opts();
    assert_eq!(
        Color { red: 1, green: 2, blue: 163 }.transpile(&o),
        "rgb(\"0102a3\")"
    );
    assert_eq!(
        Color { red: 255, green: 254, blue: 253 }.transpile(&o),
        "rgb(\"fffefd\")"
    );
}

fn default_stroke(paint: Paint) -> Stroke {
    Stroke {
        paint,
        dasharray: None,
        dashoffset: n(0),
        miterlimit: n(10),
        opacity: n(1),
        width: n(1),
        linecap: LineCap::Round,
        linejoin: LineJoin::Round,
    }
}

#[test]
fn stroke_default_omission() {
    let o = opts();
    let s = default_stroke(Paint::Color(Color { red: 255, green: 0, blue: 0 }));
    assert_eq!(s.transpile(&o).unwrap(), "red");
}

#[test]
fn fill_default_omission() {
    let o = opts();
    let f = Fill {
        paint: Paint::Color(Color { red: 0, green: 255, blue: 0 }),
        opacity: n(1),
        rule: FillRule::NonZero,
    };
    assert_eq!(f.transpile(&o).unwrap(), "green");
}

#[test]
fn stroke_modifiers() {
    let o = opts();
    let s = Stroke {
        paint: Paint::Color(Color { red: 0, green: 0, blue: 0 }),
        dasharray: Some(vec![n(4), n(2)]),
        dashoffset: dec_of(1.5),
        miterlimit: n(4),
        opacity: dec_of(0.5),
        width: n(2),
        linecap: LineCap::Butt,
        linejoin: LineJoin::Bevel,
    };
    assert_eq!(
        s.transpile(&o).unwrap(),
        "black + linetype(new real[]{4, 2, }, 1.5) + miterlimit(4) + opacity(0.5) + linewidth(2) + squarecap + beveljoin"
    );
}

#[test]
fn stroke_fuzzy_default_tolerance() {
    let o = opts();
    // A hair away from 1 after a float round trip still counts as the
    // default width and opacity.
    let mut s = default_stroke(Paint::Color(Color { red: 255, green: 0, blue: 0 }));
    s.width = dec_of(0.9999999999999999);
    s.opacity = dec_of(0.9999999999999999);
    assert_eq!(s.transpile(&o).unwrap(), "red");
}

#[test]
fn fill_evenodd_and_opacity() {
    let o = opts();
    let f = Fill {
        paint: Paint::Color(Color { red: 0, green: 0, blue: 255 }),
        opacity: dec_of(0.25),
        rule: FillRule::EvenOdd,
    };
    assert_eq!(f.transpile(&o).unwrap(), "blue + opacity(0.25) + evenodd");
}

#[test]
fn gradient_paint_is_fatal() {
    let o = opts();
    let f = Fill {
        paint: Paint::LinearGradient,
        opacity: n(1),
        rule: FillRule::NonZero,
    };
    assert_eq!(f.transpile(&o).unwrap_err(), AsyError::LinearGradientPaint);
    let s = default_stroke(Paint::RadialGradient);
    assert_eq!(s.transpile(&o).unwrap_err(), AsyError::RadialGradientPaint);
    let s = default_stroke(Paint::Pattern);
    assert_eq!(s.transpile(&o).unwrap_err(), AsyError::PatternPaint);
}

fn move_to(x: i64, y: i64) -> PathSegment {
    PathSegment::MoveTo { x: n(x), y: n(y) }
}

fn line_to(x: i64, y: i64) -> PathSegment {
    PathSegment::LineTo { x: n(x), y: n(y) }
}

#[test]
fn split_two_closed_subpaths() {
    let data = vec![
        move_to(0, 0),
        line_to(1, 0),
        PathSegment::ClosePath,
        move_to(5, 5),
        line_to(6, 5),
        PathSegment::ClosePath,
    ];
    let subs = split_subpaths(&data);
    assert_eq!(subs.len(), 2);
    assert_eq!(subs[0].segs.len(), 2);
    assert_eq!(subs[1].x, n(5));
    assert_eq!(subs[1].y, n(5));
}

#[test]
fn split_without_move_is_single() {
    let data = vec![line_to(1, 0), line_to(1, 1)];
    let subs = split_subpaths(&data);
    assert_eq!(subs.len(), 1);
    assert_eq!(subs[0].x, n(0));
    assert_eq!(subs[0].segs.len(), 2);
}

#[test]
fn split_discards_empty_subpaths() {
    let data = vec![move_to(1, 1), move_to(2, 2), line_to(3, 3)];
    let subs = split_subpaths(&data);
    assert_eq!(subs.len(), 1);
    assert_eq!(subs[0].x, n(2));
}

fn bare_group(children: Vec<Node>) -> Group {
    Group {
        id: None,
        transform: Transform::identity(),
        opacity: n(1),
        blend_mode_default: true,
        isolate: false,
        clip_path: None,
        mask: None,
        has_filters: false,
        has_filter_fill: false,
        has_filter_stroke: false,
        has_enable_background: false,
        children,
    }
}

fn bare_path(data: Vec<PathSegment>, fill: Option<Fill>, stroke: Option<Stroke>) -> Path {
    Path {
        id: None,
        transform: Transform::identity(),
        visible: true,
        fill,
        stroke,
        paint_order: PaintOrder::FillThenStroke,
        data,
    }
}

fn square() -> Vec<PathSegment> {
    vec![
        move_to(0, 0),
        line_to(10, 0),
        line_to(10, 10),
        line_to(0, 10),
        PathSegment::ClosePath,
    ]
}

fn red_fill() -> Fill {
    Fill {
        paint: Paint::Color(Color { red: 255, green: 0, blue: 0 }),
        opacity: n(1),
        rule: FillRule::NonZero,
    }
}

#[test]
fn generate_ids_numbers_clip_subtree_first() {
    let clip = Node::Path(bare_path(square(), None, None));
    let mut root = bare_group(vec![
        Node::Path(bare_path(square(), Some(red_fill()), None)),
        Node::Group(bare_group(vec![Node::Path(bare_path(square(), None, None))])),
    ]);
    root.clip_path = Some(Box::new(clip));
    let (tree, next) = generate_ids(Node::Group(root), 0);
    assert_eq!(next, 5);
    match tree {
        Node::Group(g) => {
            assert_eq!(g.id, Some(1));
            match g.clip_path.as_deref() {
                Some(Node::Path(p)) => assert_eq!(p.id, Some(0)),
                _ => panic!("clip subtree missing"),
            }
            match &g.children[0] {
                Node::Path(p) => assert_eq!(p.id, Some(2)),
                _ => panic!("first child should be a path"),
            }
            match &g.children[1] {
                Node::Group(g2) => {
                    assert_eq!(g2.id, Some(3));
                    match &g2.children[0] {
                        Node::Path(p) => assert_eq!(p.id, Some(4)),
                        _ => panic!("nested child should be a path"),
                    }
                },
                _ => panic!("second child should be a group"),
            }
        },
        _ => panic!("root should stay a group"),
    }
}

#[test]
fn generate_ids_is_deterministic() {
    let build = || {
        Node::Group(bare_group(vec![
            Node::Path(bare_path(square(), Some(red_fill()), None)),
            Node::Image { id: None },
        ]))
    };
    let (a, na) = generate_ids(build(), 7);
    let (b, nb) = generate_ids(build(), 7);
    assert_eq!(na, nb);
    assert_eq!(format!("{:?}", a), format!("{:?}", b));
}

fn assigned_tree(root: Group, w: f64, h: f64) -> Tree {
    let (node, _) = generate_ids(Node::Group(root), 0);
    Tree {
        root: node,
        view_box_width: dec_of(w),
        view_box_height: dec_of(h),
    }
}

#[test]
fn simple_square_path_scenario() {
    let root = bare_group(vec![Node::Path(bare_path(square(), Some(red_fill()), None))]);
    let tree = assigned_tree(root, 10.0, 10.0);
    let (out, warnings) = transpile_tree(&tree, &opts()).unwrap();
    let expected = "picture pic0() {\n\tpicture pic;\n\tpath p1 = (0, 0) -- (10, 0) -- (10, 10) -- (0, 10) -- cycle;\n\tfill(pic, p1, red);\n\ttransform t = (0, 0, 1, 0, 0, -1);\n\treturn t * pic;\n}\nadd(pic0());\ndraw(scale(10, -10) * ((0,0) -- (0, 1) -- (1, 1) -- (1, 0) -- cycle), invisible + linewidth(0));\n";
    assert_eq!(out, expected);
    assert!(!out.contains("draw(pic"));
    assert!(warnings.is_empty());
}

#[test]
fn combined_paint_order_scenario() {
    let fill = Fill {
        paint: Paint::Color(Color { red: 0, green: 0, blue: 255 }),
        opacity: n(1),
        rule: FillRule::NonZero,
    };
    let mut stroke = default_stroke(Paint::Color(Color { red: 0, green: 255, blue: 0 }));
    stroke.width = n(2);
    let mut path = bare_path(square(), Some(fill), Some(stroke));
    path.paint_order = PaintOrder::FillAndStroke;
    let root = bare_group(vec![Node::Path(path)]);
    let tree = assigned_tree(root, 10.0, 10.0);
    let (out, _) = transpile_tree(&tree, &opts()).unwrap();
    assert!(out.contains("\tfilldraw(pic, p1, blue, green + linewidth(2));\n"));
    assert!(!out.contains("\tdraw(pic"));
    assert!(!out.contains("\tfill(pic"));
}

#[test]
fn separate_paints_draw_then_fill() {
    let stroke = default_stroke(Paint::Color(Color { red: 0, green: 255, blue: 0 }));
    let mut path = bare_path(square(), Some(red_fill()), Some(stroke));
    path.paint_order = PaintOrder::StrokeThenFill;
    let root = bare_group(vec![Node::Path(path)]);
    let tree = assigned_tree(root, 10.0, 10.0);
    let (out, _) = transpile_tree(&tree, &opts()).unwrap();
    let draw = out.find("\tdraw(pic, p1, green);\n").expect("draw statement");
    let fill = out.find("\tfill(pic, p1, red);\n").expect("fill statement");
    assert!(draw < fill);
}

#[test]
fn separate_paints_ignore_fill_then_stroke_order() {
    // In the two-statement form the stroke statement always precedes the
    // fill statement, whatever the requested paint order; only the
    // combined form honors the distinction.
    let stroke = default_stroke(Paint::Color(Color { red: 0, green: 255, blue: 0 }));
    let mut path = bare_path(square(), Some(red_fill()), Some(stroke));
    path.paint_order = PaintOrder::FillThenStroke;
    let root = bare_group(vec![Node::Path(path)]);
    let tree = assigned_tree(root, 10.0, 10.0);
    let (out, _) = transpile_tree(&tree, &opts()).unwrap();
    let draw = out.find("\tdraw(pic, p1, green);\n").expect("draw statement");
    let fill = out.find("\tfill(pic, p1, red);\n").expect("fill statement");
    assert!(draw < fill);
}

#[test]
fn precision_option_applies_everywhere() {
    let data = vec![
        move_to(0, 0),
        PathSegment::LineTo { x: dec_of(1.23456789), y: dec_of(2.0) },
    ];
    let root = bare_group(vec![Node::Path(bare_path(data, Some(red_fill()), None))]);
    let tree = assigned_tree(root, 1.23456789, 10.0);
    let (out, _) = transpile_tree(&tree, &AsyOptions { precision: 3 }).unwrap();
    // Three decimal places give 1.235, and re-rounding to three
    // significant figures resolves the tie to the even neighbour.
    assert!(out.contains("\tpath p1 = (0, 0) -- (1.24, 2);\n"));
    assert!(out.contains("draw(scale(1.24, -10) * "));
}

#[test]
fn unsupported_group_opacity_scenario() {
    let mut root = bare_group(vec![Node::Path(bare_path(square(), Some(red_fill()), None))]);
    root.opacity = dec_of(0.5);
    let tree = assigned_tree(root, 10.0, 10.0);
    let (out, warnings) = transpile_tree(&tree, &opts()).unwrap();
    assert_eq!(warnings, vec![Warning::GroupOpacity]);
    assert_eq!(warnings[0].message(), "group opacity is not supported");
    assert!(out.contains("\tfill(pic, p1, red);\n"));
    assert!(!out.contains("opacity"));
}

#[test]
fn unsupported_nodes_warn_and_skip() {
    let mut root = bare_group(vec![
        Node::Image { id: None },
        Node::Text { id: None },
        Node::Path({
            let mut p = bare_path(square(), Some(red_fill()), None);
            p.visible = false;
            p
        }),
    ]);
    root.isolate = true;
    let tree = assigned_tree(root, 10.0, 10.0);
    let (_, warnings) = transpile_tree(&tree, &opts()).unwrap();
    assert_eq!(
        warnings,
        vec![
            Warning::Isolation,
            Warning::Image,
            Warning::Text,
            Warning::PathVisibility,
        ]
    );
}

#[test]
fn nested_group_procedure_before_parent() {
    let inner = bare_group(vec![Node::Path(bare_path(square(), Some(red_fill()), None))]);
    let root = bare_group(vec![Node::Group(inner)]);
    let tree = assigned_tree(root, 10.0, 10.0);
    let (out, _) = transpile_tree(&tree, &opts()).unwrap();
    let child_proc = out.find("picture pic1() {").expect("child procedure");
    let root_proc = out.find("picture pic0() {").expect("root procedure");
    assert!(child_proc < root_proc);
    assert!(out.contains("\tadd(pic, pic1());\n"));
}

#[test]
fn root_must_be_group() {
    let (node, _) = generate_ids(Node::Path(bare_path(square(), None, None)), 0);
    let tree = Tree {
        root: node,
        view_box_width: n(10),
        view_box_height: n(10),
    };
    assert_eq!(transpile_tree(&tree, &opts()).unwrap_err(), AsyError::RootNotGroup);
    assert_eq!(
        AsyError::RootNotGroup.message(),
        "root node is not a group"
    );
}

#[test]
fn gradient_anywhere_aborts_conversion() {
    let bad_fill = Fill {
        paint: Paint::Pattern,
        opacity: n(1),
        rule: FillRule::NonZero,
    };
    let inner = bare_group(vec![Node::Path(bare_path(square(), Some(bad_fill), None))]);
    let root = bare_group(vec![Node::Group(inner)]);
    let tree = assigned_tree(root, 10.0, 10.0);
    assert_eq!(transpile_tree(&tree, &opts()).unwrap_err(), AsyError::PatternPaint);
}

#[test]
fn multi_subpath_emits_array() {
    let data = vec![
        move_to(0, 0),
        line_to(1, 0),
        PathSegment::ClosePath,
        move_to(5, 5),
        line_to(6, 5),
        PathSegment::ClosePath,
    ];
    let root = bare_group(vec![Node::Path(bare_path(data, Some(red_fill()), None))]);
    let tree = assigned_tree(root, 10.0, 10.0);
    let (out, _) = transpile_tree(&tree, &opts()).unwrap();
    assert!(out.contains("\tpath[] p1 = {\n"));
    assert!(out.contains("\t\t(0, 0) -- (1, 0) -- cycle,\n"));
    assert!(out.contains("\t\t(5, 5) -- (6, 5) -- cycle,\n"));
    assert!(out.contains("\t};\n"));
}

#[test]
fn path_transform_applied_at_paints() {
    let mut path = bare_path(square(), Some(red_fill()), None);
    path.transform = Transform {
        a: n(2),
        b: n(0),
        c: n(0),
        d: n(2),
        e: n(5),
        f: dec_of(7.5),
    };
    let root = bare_group(vec![Node::Path(path)]);
    let tree = assigned_tree(root, 10.0, 10.0);
    let (out, _) = transpile_tree(&tree, &opts()).unwrap();
    assert!(out.contains("\ttransform t1 = (5, 7.5, 2, 0, 0, 2);\n"));
    assert!(out.contains("\tfill(pic, t1 * p1, red);\n"));
}

#[test]
fn curve_segment_tokens() {
    let data = vec![
        move_to(0, 0),
        PathSegment::CurveTo {
            x1: n(1),
            y1: n(2),
            x2: n(3),
            y2: n(4),
            x: n(5),
            y: n(6),
        },
    ];
    let root = bare_group(vec![Node::Path(bare_path(data, Some(red_fill()), None))]);
    let tree = assigned_tree(root, 10.0, 10.0);
    let (out, _) = transpile_tree(&tree, &opts()).unwrap();
    assert!(out.contains(
        "\tpath p1 = (0, 0) .. controls (1, 2) and (3, 4) .. (5, 6);\n"
    ));
}
