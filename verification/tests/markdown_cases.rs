use hangulang::ir::block::{Block, HeaderFooterApply, ListItem};
use hangulang::ir::formula::Formula;
use hangulang::ir::inline::Inline;
use hangulang::ir::style::StyleFlags;
use hangulang::ir::table::{Table, TableCell};
use hangulang::ir::{Section, SirDocument};
use hangulang::loss::{LossEntry, LossKind, LossReport};
use hangulang::markdown::write_markdown;
use hangulang::options::ConvertOptions;
use hangulang::resources::ResourcePolicy;

fn doc(blocks: Vec<Block>) -> SirDocument {
    SirDocument {
        sections: vec![Section { blocks }],
        doclang_version: "0.6",
    }
}

fn text(s: &str) -> Inline {
    Inline::Text(s.into())
}

fn para(s: &str) -> Block {
    Block::Paragraph {
        content: vec![text(s)],
        lost: None,
        prov: None,
    }
}

fn md(blocks: Vec<Block>) -> (String, LossReport) {
    let mut loss = LossReport::new();
    let out = write_markdown(&doc(blocks), &ConvertOptions::default(), &mut loss);
    (out.markdown, loss)
}

#[test]
fn escapes_markdown_metacharacters() {
    let (out, _) = md(vec![para("a*b_c[d]e`f\\g")]);
    assert_eq!(out, "a\\*b\\_c\\[d\\]e\\`f\\\\g\n");
}

#[test]
fn nested_styles_wrap_innermost_first() {
    let flags = StyleFlags {
        bold: true,
        italic: true,
        strike: true,
        superscript: true,
        subscript: true,
        underline: true,
    };
    let (out, _) = md(vec![Block::Paragraph {
        content: vec![Inline::Styled(flags, vec![text("x")])],
        lost: None,
        prov: None,
    }]);
    assert_eq!(out, "***~~<sup><sub>x</sub></sup>~~***\n");
}

#[test]
fn footnote_refs_tabs_breaks_and_links() {
    let (out, _) = md(vec![Block::Paragraph {
        content: vec![
            text("a"),
            Inline::Tab,
            text("b"),
            Inline::FootnoteRef(12),
            Inline::LineBreak,
            Inline::Href {
                uri: "http://x.y/a b)".into(),
                content: vec![text("go")],
            },
        ],
        lost: None,
        prov: None,
    }]);
    assert_eq!(out, "a b[^12]\n[go](http://x.y/a%20b%29)\n");
}

#[test]
fn heading_levels_are_clamped() {
    let h = |level: u8| Block::Heading {
        level,
        content: vec![text("T")],
        lost: None,
        prov: None,
    };
    let (out, _) = md(vec![h(0), h(9)]);
    assert_eq!(out, "# T\n\n###### T\n");
}

#[test]
fn lists_nest_with_indent_and_summaries() {
    let inner = Block::List {
        ordered: false,
        items: vec![ListItem {
            content: vec![para("inner")],
        }],
        lost: None,
        prov: None,
    };
    let (out, _) = md(vec![Block::List {
        ordered: true,
        items: vec![
            ListItem {
                content: vec![para("one"), inner],
            },
            ListItem { content: vec![] },
        ],
        lost: None,
        prov: None,
    }]);
    assert_eq!(out, "1. one\n  - inner\n\n1. \n");
}

#[test]
fn table_with_caption_and_escaped_cells() {
    let cell = |row: u16, col: u16, s: &str| TableCell {
        row,
        col,
        row_span: 1,
        col_span: 1,
        is_header: false,
        content: vec![para(s)],
    };
    let table = Table {
        rows: 2,
        cols: 2,
        caption: Some(vec![text("Cap")]),
        prov: None,
        cells: vec![cell(0, 0, "a|b"), cell(1, 1, "z"), cell(5, 5, "out")],
    };
    let (out, _) = md(vec![Block::Table(table)]);
    assert_eq!(out, "_Cap_\n\n| a\\|b |  |\n| --- | --- |\n|  | z |\n");
}

#[test]
fn empty_table_writes_only_caption() {
    let table = Table {
        rows: 0,
        cols: 3,
        caption: None,
        prov: None,
        cells: vec![],
    };
    let (out, _) = md(vec![para("x"), Block::Table(table)]);
    assert_eq!(out, "x\n");
}

#[test]
fn formula_without_latex_records_loss() {
    let (out, loss) = md(vec![
        Block::Formula(Formula {
            raw_eqedit: "a over b".into(),
            latex: None,
            prov: None,
        }),
        Block::Formula(Formula {
            raw_eqedit: "x".into(),
            latex: Some("\\frac{a}{b}".into()),
            prov: None,
        }),
    ]);
    assert_eq!(out, "```eqedit\na over b\n```\n\n$$\n\\frac{a}{b}\n$$\n");
    assert_eq!(loss.len(), 1);
    let e = &loss.entries()[0];
    assert_eq!(e.kind, LossKind::FormulaFallback);
    assert_eq!(e.location, "section[0]/block[0]");
    assert_eq!(
        e.detail,
        "no LaTeX conversion; emitted raw EqEdit script in Markdown: a over b"
    );
}

#[test]
fn custom_block_and_scoped_header_record_loss() {
    let (out, loss) = md(vec![
        Block::PageHeader {
            content: vec![para("head")],
            apply: HeaderFooterApply::Even,
            prov: None,
        },
        Block::Custom {
            namespace: "hwp:x".into(),
            body: String::new(),
        },
        Block::PageFooter {
            content: vec![para("foot")],
            apply: HeaderFooterApply::All,
            prov: None,
        },
    ]);
    assert_eq!(out, "head\n\nfoot\n");
    assert_eq!(loss.len(), 2);
    let e = loss.entries();
    assert_eq!(e[0].kind, LossKind::SectionSettings);
    assert_eq!(
        e[0].detail,
        "page_header applies to even pages; Markdown has no page-scope marker"
    );
    assert_eq!(e[1].kind, LossKind::FloatingObject);
    assert_eq!(e[1].location, "section[0]/block[1]");
    assert_eq!(e[1].detail, "custom block omitted from Markdown (ns=hwp:x)");
}

#[test]
fn footnote_text_is_trimmed() {
    let (out, _) = md(vec![Block::Footnote {
        number: 3,
        content: vec![para("  note \u{3000}"), Block::PageBreak],
        prov: None,
    }]);
    assert_eq!(out, "[^3]: note \u{3000} \\pagebreak\n");
}

#[test]
fn default_policy_embeds_data_uri() {
    let (out, _) = md(vec![Block::Picture {
        data: b"abc".to_vec(),
        extension: "jpg".into(),
        geometry: None,
        lost: None,
        prov: None,
    }]);
    assert_eq!(out, "![image](data:image/jpeg;base64,YWJj)\n");
}

#[test]
fn uri_prefix_policy_prefixes_asset_name() {
    let mut loss = LossReport::new();
    let opts = ConvertOptions {
        resource_policy: ResourcePolicy::uri_prefix("https://cdn/x/"),
        ..ConvertOptions::default()
    };
    let blocks = vec![Block::PageHeader {
        content: vec![Block::Picture {
            data: vec![1, 2],
            extension: "gif".into(),
            geometry: None,
            lost: None,
            prov: None,
        }],
        apply: HeaderFooterApply::All,
        prov: None,
    }];
    let out = write_markdown(&doc(blocks), &opts, &mut loss);
    assert_eq!(
        out.markdown,
        "![image](https://cdn/x/section-0-block-0-block-0.gif)\n"
    );
    assert_eq!(out.assets[0].path, "section-0-block-0-block-0.gif");
    assert_eq!(out.assets[0].mime, "image/gif");
    assert_eq!(out.assets[0].data, vec![1, 2]);
}

#[test]
fn output_ends_with_exactly_one_newline() {
    let (out, _) = md(vec![Block::PageBreak, Block::ThreadStart { thread_id: "t".into() }]);
    assert_eq!(out, "\\pagebreak\n");
    let (empty, _) = md(vec![]);
    assert_eq!(empty, "\n");
}

#[test]
fn earlier_losses_are_kept() {
    let mut loss = LossReport::new();
    loss.push(LossEntry {
        kind: LossKind::Other("before".into()),
        location: "x".into(),
        detail: "d".into(),
    });
    let _ = write_markdown(
        &doc(vec![Block::Custom {
            namespace: "n".into(),
            body: String::new(),
        }]),
        &ConvertOptions::default(),
        &mut loss,
    );
    assert_eq!(loss.len(), 2);
    assert_eq!(loss.entries()[0].kind, LossKind::Other("before".into()));
}
