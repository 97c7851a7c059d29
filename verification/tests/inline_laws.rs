use hangulang::ir::inline::Inline;
use hangulang::ir::style::StyleFlags;
use hangulang::loss::{LossKind, LossReport};
use hangulang::parser_adapter::inline::{extract_inlines, push_merged};
use hangulang::parser_adapter::model::{CharShape, CharShapeRef, DocInfo, Font, Paragraph, UnderlineType};

fn para(text: &str, shapes: &[(u32, u32)]) -> Paragraph {
    Paragraph {
        text: text.to_string(),
        char_offsets: (0..text.chars().count() as u32).collect(),
        char_shapes: shapes
            .iter()
            .map(|&(start_pos, char_shape_id)| CharShapeRef {
                start_pos,
                char_shape_id,
            })
            .collect(),
    }
}

fn plain_text(nodes: &[Inline]) -> String {
    let mut s = String::new();
    for n in nodes {
        match n {
            Inline::Text(t) => s.push_str(t),
            Inline::Styled(_, c) => s.push_str(&plain_text(c)),
            Inline::Tab => s.push('\t'),
            Inline::LineBreak => s.push('\n'),
            Inline::FootnoteRef(_) => {}
            Inline::Href { content, .. } => s.push_str(&plain_text(content)),
        }
    }
    s
}

#[test]
fn text_survives_splitting() {
    let underline = CharShape {
        underline_type: UnderlineType::Bottom,
        ..Default::default()
    };
    let di = DocInfo {
        char_shapes: vec![CharShape::default(), underline],
        font_faces: vec![],
    };
    let p = para("ab\tc\u{FFFC}d\ne", &[(0, 0), (3, 1), (5, 0)]);
    let mut loss = LossReport::new();
    let out = extract_inlines(&p, &di, "loc", &mut loss);
    assert_eq!(plain_text(&out), "ab\tcd\ne");
    assert_eq!(
        out,
        vec![
            Inline::Text("ab".into()),
            Inline::Tab,
            Inline::Styled(
                StyleFlags {
                    underline: true,
                    ..Default::default()
                },
                vec![Inline::Text("c".into())]
            ),
            Inline::Text("d".into()),
            Inline::LineBreak,
            Inline::Text("e".into()),
        ]
    );
}

#[test]
fn later_reference_at_same_start_wins_and_unknown_shape_is_plain() {
    let bold = CharShape {
        bold: true,
        ..Default::default()
    };
    let italic = CharShape {
        italic: true,
        ..Default::default()
    };
    let di = DocInfo {
        char_shapes: vec![bold, italic],
        font_faces: vec![],
    };
    let p = para("xyz", &[(0, 0), (0, 1), (2, 9)]);
    let mut loss = LossReport::new();
    let out = extract_inlines(&p, &di, "loc", &mut loss);
    assert_eq!(
        out,
        vec![
            Inline::Styled(
                StyleFlags {
                    italic: true,
                    ..Default::default()
                },
                vec![Inline::Text("xy".into())]
            ),
            Inline::Text("z".into()),
        ]
    );
}

#[test]
fn loss_details_name_colour_and_font() {
    let cs = CharShape {
        text_color: 0x1234_5678,
        base_size: -5,
        font_ids: [0, 3, 0, 0, 0, 0, 0],
        ..Default::default()
    };
    let di = DocInfo {
        char_shapes: vec![cs],
        font_faces: vec![
            vec![Font { name: String::new() }],
            vec![
                Font::default(),
                Font::default(),
                Font::default(),
                Font {
                    name: "Latin".into(),
                },
            ],
        ],
    };
    let p = para("q", &[(0, 0)]);
    let mut loss = LossReport::new();
    let _ = extract_inlines(&p, &di, "s1/p2", &mut loss);
    let e = loss.entries();
    assert_eq!(e.len(), 2);
    assert_eq!(e[0].kind, LossKind::CharColor);
    assert_eq!(e[0].detail, "text_color=0x345678");
    assert_eq!(e[0].location, "s1/p2");
    assert_eq!(e[1].kind, LossKind::FontInfo);
    assert_eq!(e[1].detail, "font=Latin, base_size=-5");
}

#[test]
fn font_id_detail_without_font_table() {
    let cs = CharShape {
        base_size: 1000,
        font_ids: [7, 0, 0, 0, 0, 0, 0],
        ..Default::default()
    };
    let di = DocInfo {
        char_shapes: vec![cs],
        font_faces: vec![],
    };
    let p = para("q", &[(0, 0)]);
    let mut loss = LossReport::new();
    let _ = extract_inlines(&p, &di, "x", &mut loss);
    assert_eq!(loss.len(), 1);
    assert_eq!(loss.entries()[0].detail, "font_id=7, base_size=1000");
}

#[test]
fn push_merged_merges_children_of_equal_styles() {
    let b = StyleFlags {
        bold: true,
        ..Default::default()
    };
    let mut v = vec![Inline::Styled(b, vec![Inline::Text("a".into()), Inline::Tab])];
    push_merged(
        &mut v,
        Inline::Styled(b, vec![Inline::Tab, Inline::Text("c".into())]),
    );
    push_merged(&mut v, Inline::Text("d".into()));
    push_merged(&mut v, Inline::Text("e".into()));
    assert_eq!(
        v,
        vec![
            Inline::Styled(
                b,
                vec![
                    Inline::Text("a".into()),
                    Inline::Tab,
                    Inline::Tab,
                    Inline::Text("c".into())
                ]
            ),
            Inline::Text("de".into()),
        ]
    );
}
