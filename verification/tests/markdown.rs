use hangulang::ir::block::Block;
use hangulang::ir::inline::Inline;
use hangulang::ir::style::StyleFlags;
use hangulang::ir::table::{Table, TableCell};
use hangulang::ir::{Section, SirDocument};
use hangulang::loss::LossReport;
use hangulang::markdown::write_markdown;
use hangulang::options::ConvertOptions;
use hangulang::resources::ResourcePolicy;

fn doc(blocks: Vec<Block>) -> SirDocument {
    SirDocument {
        sections: vec![Section { blocks }],
        doclang_version: "0.6",
    }
}

fn para(text: &str) -> Block {
    Block::Paragraph {
        content: vec![Inline::Text(text.into())],
        lost: None,
        prov: None,
    }
}

#[test]
fn writes_headings_paragraphs_and_styles() {
    let bold = StyleFlags {
        bold: true,
        ..Default::default()
    };
    let mut loss = LossReport::new();
    let out = write_markdown(
        &doc(vec![
            Block::Heading {
                level: 2,
                content: vec![Inline::Text("Title".into())],
                lost: None,
                prov: None,
            },
            Block::Paragraph {
                content: vec![Inline::Styled(bold, vec![Inline::Text("body".into())])],
                lost: None,
                prov: None,
            },
        ]),
        &ConvertOptions::default(),
        &mut loss,
    );
    assert_eq!(out.markdown, "## Title\n\n**body**\n");
    assert!(loss.is_empty());
}

#[test]
fn asset_policy_returns_markdown_assets() {
    let mut loss = LossReport::new();
    let opts = ConvertOptions {
        resource_policy: ResourcePolicy::asset_dir("assets"),
        ..ConvertOptions::default()
    };
    let out = write_markdown(
        &doc(vec![Block::Picture {
            data: b"abc".to_vec(),
            extension: "png".into(),
            geometry: None,
            lost: None,
            prov: None,
        }]),
        &opts,
        &mut loss,
    );
    assert_eq!(out.markdown, "![image](assets/section-0-block-0.png)\n");
    assert_eq!(out.assets.len(), 1);
    assert_eq!(out.assets[0].path, "section-0-block-0.png");
}

#[test]
fn writes_simple_table() {
    let mut loss = LossReport::new();
    let table = Table {
        rows: 2,
        cols: 2,
        caption: None,
        prov: None,
        cells: vec![
            TableCell {
                row: 0,
                col: 0,
                row_span: 1,
                col_span: 1,
                is_header: false,
                content: vec![para("A")],
            },
            TableCell {
                row: 0,
                col: 1,
                row_span: 1,
                col_span: 1,
                is_header: false,
                content: vec![para("B")],
            },
        ],
    };
    let out = write_markdown(
        &doc(vec![Block::Table(table)]),
        &ConvertOptions::default(),
        &mut loss,
    );
    assert!(out.markdown.contains("| A | B |"));
    assert!(out.markdown.contains("| --- | --- |"));
}
