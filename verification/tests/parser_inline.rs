use hangulang::ir::inline::Inline;
use hangulang::ir::style::StyleFlags;
use hangulang::loss::{LossKind, LossReport};
use hangulang::parser_adapter::inline::extract_inlines;
use hangulang::parser_adapter::model::{CharShape, CharShapeRef, DocInfo, Font, Paragraph};

/// Build a paragraph from `text`, computing `char_offsets` as UTF-16 stream
/// offsets. `shapes` are `(start_pos, char_shape_id)` pairs in UTF-16
/// code-unit space.
fn make_para(text: &str, shapes: &[(u32, u32)]) -> Paragraph {
    let mut char_offsets = Vec::new();
    let mut off: u32 = 0;
    for c in text.chars() {
        char_offsets.push(off);
        off += if (c as u32) > 0xFFFF { 2 } else { 1 };
    }
    Paragraph {
        text: text.to_string(),
        char_offsets,
        char_shapes: shapes
            .iter()
            .map(|&(start_pos, char_shape_id)| CharShapeRef {
                start_pos,
                char_shape_id,
            })
            .collect(),
    }
}

fn bold_shape() -> CharShape {
    CharShape {
        bold: true,
        ..Default::default()
    }
}

fn doc_info(shapes: Vec<CharShape>) -> DocInfo {
    DocInfo {
        char_shapes: shapes,
        ..Default::default()
    }
}

fn bold() -> StyleFlags {
    StyleFlags {
        bold: true,
        ..Default::default()
    }
}

#[test]
fn single_run_plain() {
    let para = make_para("hello", &[(0, 0)]);
    let di = doc_info(vec![CharShape::default()]);
    let mut loss = LossReport::new();
    let out = extract_inlines(&para, &di, "s0/p0", &mut loss);
    assert_eq!(out, vec![Inline::Text("hello".to_string())]);
    assert!(loss.is_empty());
}

#[test]
fn single_run_bold() {
    let para = make_para("hello", &[(0, 0)]);
    let di = doc_info(vec![bold_shape()]);
    let mut loss = LossReport::new();
    let out = extract_inlines(&para, &di, "s0/p0", &mut loss);
    assert_eq!(
        out,
        vec![Inline::Styled(bold(), vec![Inline::Text("hello".to_string())])]
    );
}

#[test]
fn multi_run_style_change_mid_text() {
    let para = make_para("abcd", &[(0, 0), (2, 1)]);
    let di = doc_info(vec![CharShape::default(), bold_shape()]);
    let mut loss = LossReport::new();
    let out = extract_inlines(&para, &di, "s0/p0", &mut loss);
    assert_eq!(
        out,
        vec![
            Inline::Text("ab".to_string()),
            Inline::Styled(bold(), vec![Inline::Text("cd".to_string())]),
        ]
    );
}

#[test]
fn surrogate_pair_utf16_offset_conversion() {
    // "A😀B": the emoji is one char but two UTF-16 code units, so
    // char_offsets = [0, 1, 3] and start_pos 3 maps to char index 2.
    let para = make_para("A😀B", &[(0, 0), (3, 1)]);
    let di = doc_info(vec![CharShape::default(), bold_shape()]);
    let mut loss = LossReport::new();
    let out = extract_inlines(&para, &di, "s0/p0", &mut loss);
    assert_eq!(
        out,
        vec![
            Inline::Text("A😀".to_string()),
            Inline::Styled(bold(), vec![Inline::Text("B".to_string())]),
        ]
    );
}

#[test]
fn surrogate_pair_boundary_at_emoji() {
    let para = make_para("A😀B", &[(0, 0), (1, 1)]);
    let di = doc_info(vec![CharShape::default(), bold_shape()]);
    let mut loss = LossReport::new();
    let out = extract_inlines(&para, &di, "s0/p0", &mut loss);
    assert_eq!(
        out,
        vec![
            Inline::Text("A".to_string()),
            Inline::Styled(bold(), vec![Inline::Text("😀B".to_string())]),
        ]
    );
}

#[test]
fn adjacent_identical_runs_merged() {
    let para = make_para("abcd", &[(0, 0), (2, 1)]);
    let di = doc_info(vec![bold_shape(), bold_shape()]);
    let mut loss = LossReport::new();
    let out = extract_inlines(&para, &di, "s0/p0", &mut loss);
    assert_eq!(
        out,
        vec![Inline::Styled(bold(), vec![Inline::Text("abcd".to_string())])]
    );
}

#[test]
fn tab_and_linebreak_control_chars() {
    let para = make_para("a\tb\nc", &[(0, 0)]);
    let di = doc_info(vec![CharShape::default()]);
    let mut loss = LossReport::new();
    let out = extract_inlines(&para, &di, "s0/p0", &mut loss);
    assert_eq!(
        out,
        vec![
            Inline::Text("a".to_string()),
            Inline::Tab,
            Inline::Text("b".to_string()),
            Inline::LineBreak,
            Inline::Text("c".to_string()),
        ]
    );
}

#[test]
fn object_replacement_char_stripped() {
    let para = make_para("a\u{FFFC}b", &[(0, 0)]);
    let di = doc_info(vec![CharShape::default()]);
    let mut loss = LossReport::new();
    let out = extract_inlines(&para, &di, "s0/p0", &mut loss);
    assert_eq!(out, vec![Inline::Text("ab".to_string())]);
}

#[test]
fn empty_text() {
    let para = make_para("", &[]);
    let di = doc_info(vec![]);
    let mut loss = LossReport::new();
    let out = extract_inlines(&para, &di, "s0/p0", &mut loss);
    assert!(out.is_empty());
    assert!(loss.is_empty());
}

#[test]
fn no_char_shapes_defaults_plain() {
    let para = make_para("plain", &[]);
    let di = doc_info(vec![]);
    let mut loss = LossReport::new();
    let out = extract_inlines(&para, &di, "s0/p0", &mut loss);
    assert_eq!(out, vec![Inline::Text("plain".to_string())]);
}

#[test]
fn color_and_font_loss_recorded_once_per_paragraph() {
    let cs0 = CharShape {
        text_color: 0x0000_00FF,
        base_size: 1000,
        font_ids: [1, 0, 0, 0, 0, 0, 0],
        ..Default::default()
    };
    let mut cs1 = cs0.clone();
    cs1.text_color = 0x00FF_0000;

    let font = Font {
        name: "Nanum".to_string(),
    };
    let mut di = doc_info(vec![cs0, cs1]);
    di.font_faces = vec![vec![Font::default(), font]];

    let para = make_para("abcd", &[(0, 0), (2, 1)]);
    let mut loss = LossReport::new();
    let _ = extract_inlines(&para, &di, "s0/p0", &mut loss);

    let color_count = loss
        .iter()
        .filter(|e| e.kind == LossKind::CharColor)
        .count();
    let font_count = loss.iter().filter(|e| e.kind == LossKind::FontInfo).count();
    assert_eq!(color_count, 1, "colour loss must be recorded once");
    assert_eq!(font_count, 1, "font loss must be recorded once");
}

#[test]
fn nested_flags_bold_italic() {
    let cs = CharShape {
        bold: true,
        italic: true,
        ..Default::default()
    };
    let di = doc_info(vec![cs]);
    let para = make_para("x", &[(0, 0)]);
    let mut loss = LossReport::new();
    let out = extract_inlines(&para, &di, "s0/p0", &mut loss);
    assert_eq!(
        out,
        vec![Inline::Styled(
            StyleFlags {
                bold: true,
                italic: true,
                ..Default::default()
            },
            vec![Inline::Text("x".to_string())]
        )]
    );
}
