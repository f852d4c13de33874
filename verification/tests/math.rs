use blink::math::{
    drawings, escape_attribute, kern_missing_characters, number, outline, rectangle, system_font,
    MAX_TYPESET, Curve, Drawing, Family, Formula, Item, Segment, Shape, Typeset,
};

fn point(x: &str, y: &str) -> (String, String) {
    (String::from(x), String::from(y))
}

fn formula() -> Formula {
    Formula {
        top: String::from("-0.8141"),
        width: String::from("1.2000"),
        height: String::from("0.8141"),
        drop: String::from("-0.0000"),
        shapes: vec![
            Shape {
                path: vec![
                    Segment::Move(point("0.0000", "-0.5000")),
                    Segment::Line(point("1.0000", "0.2500")),
                    Segment::Quad(point("1.0000", "2.0000"), point("3.0000", "4.1000")),
                    Segment::Cubic(
                        point("1.0000", "2.0000"),
                        point("3.0000", "4.0000"),
                        point("5.0000", "6.0000"),
                    ),
                    Segment::Close,
                ],
                stroke: None,
                color: None,
            },
            Shape {
                path: Vec::new(),
                stroke: Some(String::from("0.0484")),
                color: Some((255, 0, 17)),
            },
        ],
    }
}

#[test]
fn svg_draws_in_the_colour_of_the_text_and_reads_as_the_source() {
    let svg = formula().svg("x^2 < \"y\"");
    assert!(svg.starts_with("<svg xmlns=\"http://www.w3.org/2000/svg\" class=\"math\""));
    assert!(svg.contains("aria-label=\"x^2 &lt; &quot;y&quot;\""));
    assert!(svg.contains("fill=\"currentColor\""));
    assert_eq!(number(&format!("{:.4}", -0.00001)), "0");
    assert_eq!(number(&format!("{:.4}", 1.5)), "1.5");
}

#[test]
fn svg_holds_every_shape() {
    assert_eq!(
        formula().svg("x"),
        "<svg xmlns=\"http://www.w3.org/2000/svg\" class=\"math\" role=\"img\" aria-label=\"x\" \
         viewBox=\"0 -0.8141 1.2 0.8141\" style=\"width: 1.2em; height: 0.8141em; \
         vertical-align: 0em\"><path d=\"M0 -0.5L1 0.25Q1 2 3 4.1C1 2 3 4 5 6Z\" \
         fill=\"currentColor\"/><path d=\"\" fill=\"none\" stroke=\"rgb(255, 0, 17)\" \
         stroke-width=\"0.0484\"/></svg>"
    );
}

#[test]
fn numbers_have_no_decimals_that_say_nothing() {
    assert_eq!(number("2.0000"), "2");
    assert_eq!(number("-0.0000"), "0");
    assert_eq!(number("0.0000"), "0");
    assert_eq!(number("-0.5000"), "-0.5");
}

#[test]
fn attributes_are_escaped() {
    assert_eq!(escape_attribute("a & \"b\" <c>"), "a &amp; &quot;b&quot; &lt;c&gt;");
}

#[test]
fn contours_are_closed_before_the_next() {
    let curves = vec![
        Curve::Line((0, 0), (1, 0)),
        Curve::Quad((1, 0), (2, 1), (0, 0)),
        Curve::Cubic((5, 5), (6, 6), (7, 7), (8, 8)),
    ];
    assert_eq!(
        outline(&curves, &vec![false, true, false]),
        [
            Segment::Move((0, 0)),
            Segment::Line((1, 0)),
            Segment::Quad((2, 1), (0, 0)),
            Segment::Close,
            Segment::Move((5, 5)),
            Segment::Cubic((6, 6), (7, 7), (8, 8)),
            Segment::Close,
        ]
    );
    assert!(outline::<(i32, i32)>(&Vec::new(), &Vec::new()).is_empty());
    assert_eq!(
        rectangle([1, 2, 3, 4]),
        [
            Segment::Move(1),
            Segment::Line(2),
            Segment::Line(3),
            Segment::Line(4),
            Segment::Close,
        ]
    );
}

#[test]
fn characters_the_fonts_lack_are_kerned() {
    let kern = Some(String::from("0.125"));
    assert_eq!(
        kern_missing_characters("aПb", &vec![kern.clone(), kern, None]),
        "aП\\kern{0.125em}b"
    );
    assert_eq!(kern_missing_characters("П", &vec![None]), "П");
    assert_eq!(kern_missing_characters("П", &Vec::new()), "П");
}

#[test]
fn fonts_of_the_system_are_alike() {
    assert_eq!(system_font("SansSerif-Bold"), (Family::Sans, true, false));
    assert_eq!(system_font("Typewriter-Regular"), (Family::Monospace, false, false));
    assert_eq!(system_font("Main-BoldItalic"), (Family::Serif, true, true));
}

#[test]
fn formulas_are_drawn_with_all_their_characters() {
    let stroke = Item::Path {
        path: vec![Segment::Move(1), Segment::Line(2)],
        filled: false,
        color: Some(9),
    };
    let character = Item::Character {
        own: None,
        system: Some(vec![Segment::Move(5)]),
        color: None,
    };
    let rule = Item::Box {
        corners: [1, 2, 3, 4],
        color: None,
    };
    let drawn = drawings(&vec![stroke, character, rule]).unwrap();
    assert_eq!(
        drawn[0],
        Drawing {
            path: vec![Segment::Move(1), Segment::Line(2)],
            stroked: true,
            color: Some(9),
        }
    );
    assert_eq!(drawn[1].path, vec![Segment::Move(5)]);
    assert!(!drawn[1].stroked);
    assert_eq!(drawn[2].path, rectangle([1, 2, 3, 4]));
    assert_eq!(drawn.len(), 3);
    let unknown: Item<u8, u8> = Item::Character {
        own: None,
        system: None,
        color: None,
    };
    assert!(drawings(&vec![unknown]).is_none());
}

#[test]
fn formulas_are_kept_once_typeset() {
    let mut store: Typeset<u32> = Typeset::new();
    assert!(store.find("x", true).is_none());
    store.keep("x", true, Some(1));
    store.keep("x", false, None);
    assert_eq!(store.find("x", true), Some(&Some(1)));
    assert_eq!(store.find("x", false), Some(&None));
    assert!(store.find("y", true).is_none());
    for i in 2..=MAX_TYPESET {
        store.keep(&format!("{i}"), true, None);
    }
    assert_eq!(store.find("x", true), Some(&Some(1)));
    store.keep("last", true, Some(2));
    assert!(store.find("x", true).is_none());
    assert_eq!(store.find("last", true), Some(&Some(2)));
}
