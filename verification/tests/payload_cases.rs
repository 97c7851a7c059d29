use hangulang::ir::block::{Block, HeaderFooterApply, ListItem};
use hangulang::ir::formula::Formula;
use hangulang::ir::inline::Inline;
use hangulang::ir::prov::{Location, LocationMap, Prov};
use hangulang::ir::style::StyleFlags;
use hangulang::ir::table::{Table, TableCell};
use hangulang::ir::{Section, SirDocument};
use hangulang::loss::{LossEntry, LossKind, LossReport};
use hangulang::options::ConvertOptions;
use hangulang::payload::{build_payload, PAYLOAD_SCHEMA_VERSION};

fn doc(blocks: Vec<Block>) -> SirDocument {
    SirDocument {
        sections: vec![Section { blocks }],
        doclang_version: "0.6",
    }
}

fn text(s: &str) -> Inline {
    Inline::Text(s.into())
}

fn para(s: &str) -> Block {
    Block::Paragraph {
        content: vec![text(s)],
        lost: None,
        prov: None,
    }
}

fn located() -> ConvertOptions {
    ConvertOptions {
        with_location: true,
        ..ConvertOptions::default()
    }
}

#[test]
fn header_fields_and_losses() {
    let mut loss = LossReport::new();
    loss.push(LossEntry {
        kind: LossKind::Other("x".into()),
        location: "l".into(),
        detail: "d".into(),
    });
    loss.push(LossEntry {
        kind: LossKind::FontInfo,
        location: "m".into(),
        detail: "e".into(),
    });
    let p = build_payload(
        &doc(vec![]),
        &ConvertOptions::default(),
        &LocationMap::new(),
        &loss,
    );
    assert_eq!(p.schema_version, PAYLOAD_SCHEMA_VERSION);
    assert_eq!(p.schema_version, "hangulang.semantic.v1");
    assert_eq!(p.doclang_version, "0.6");
    assert_eq!(p.losses.len(), 2);
    assert_eq!(p.losses[0].kind, "other:x");
    assert_eq!(p.losses[1].kind, "font_info");
    assert_eq!(p.losses[1].location, "m");
}

#[test]
fn location_statuses() {
    let mut locs = LocationMap::new();
    locs.insert(
        Prov::text(0, 0),
        Location {
            page: 1,
            x_min: 0,
            y_min: 0,
            x_max: 1,
            y_max: 1,
        },
    );
    let blocks = vec![
        Block::Paragraph {
            content: vec![text("a")],
            lost: None,
            prov: Some(Prov::text(0, 1)),
        },
        para("b"),
        Block::PageBreak,
    ];
    let p = build_payload(&doc(blocks), &located(), &locs, &LossReport::new());
    let b = &p.sections[0].blocks;
    assert_eq!(b[0].location.status, "unresolved");
    assert_eq!(b[0].location.resolution, Some(512));
    assert_eq!(b[1].location.status, "no_provenance");
    assert_eq!(b[2].location.status, "not_applicable");
    assert_eq!(b[2].location.resolution, None);
}

#[test]
fn locations_do_not_matter_when_not_requested() {
    let mut locs = LocationMap::new();
    locs.insert(
        Prov::text(0, 0),
        Location {
            page: 9,
            x_min: 1,
            y_min: 1,
            x_max: 2,
            y_max: 2,
        },
    );
    let d = doc(vec![Block::Paragraph {
        content: vec![text("hello")],
        lost: None,
        prov: Some(Prov::text(0, 0)),
    }]);
    let opts = ConvertOptions::default();
    let with = build_payload(&d, &opts, &locs, &LossReport::new());
    let without = build_payload(&d, &opts, &LocationMap::new(), &LossReport::new());
    assert_eq!(with, without);
}

#[test]
fn later_location_replaces_earlier() {
    let mut locs = LocationMap::new();
    let at = |page: u32| Location {
        page,
        x_min: 0,
        y_min: 0,
        x_max: 0,
        y_max: 0,
    };
    locs.insert(Prov::control(0, 2, 1), at(1));
    locs.insert(Prov::control(0, 2, 1), at(7));
    assert_eq!(locs.get(&Prov::control(0, 2, 1)).unwrap().page, 7);
    assert!(locs.get(&Prov::text(0, 2)).is_none());
}

#[test]
fn inlines_and_heading_levels() {
    let bold = StyleFlags {
        bold: true,
        ..Default::default()
    };
    let blocks = vec![Block::Heading {
        level: 8,
        content: vec![
            Inline::Styled(bold, vec![text("B")]),
            Inline::Tab,
            Inline::FootnoteRef(2),
            Inline::Href {
                uri: "u".into(),
                content: vec![text("L")],
            },
            Inline::LineBreak,
        ],
        lost: None,
        prov: None,
    }];
    let p = build_payload(
        &doc(blocks),
        &ConvertOptions::default(),
        &LocationMap::new(),
        &LossReport::new(),
    );
    let b = &p.sections[0].blocks[0];
    assert_eq!(b.kind, "heading");
    assert_eq!(b.level, Some(6));
    assert_eq!(b.text.as_deref(), Some("B\t[^2]L\n"));
    assert_eq!(b.inlines.len(), 5);
    assert_eq!(b.inlines[0].kind, "styled");
    assert!(b.inlines[0].styles.unwrap().bold);
    assert_eq!(b.inlines[0].children[0].kind, "text");
    assert_eq!(b.inlines[1].kind, "tab");
    assert_eq!(b.inlines[2].kind, "footnote_ref");
    assert_eq!(b.inlines[2].footnote_number, Some(2));
    assert_eq!(b.inlines[3].kind, "href");
    assert_eq!(b.inlines[3].uri.as_deref(), Some("u"));
    assert_eq!(b.inlines[4].text.as_deref(), Some("\n"));
}

#[test]
fn containers_lists_and_tables() {
    let cell = |row: u16, s: &str| TableCell {
        row,
        col: 0,
        row_span: 1,
        col_span: 2,
        is_header: row == 0,
        content: vec![para(s)],
    };
    let blocks = vec![
        Block::List {
            ordered: false,
            items: vec![
                ListItem {
                    content: vec![para("a"), para("")],
                },
                ListItem {
                    content: vec![para("b")],
                },
            ],
            lost: None,
            prov: None,
        },
        Block::Table(Table {
            rows: 2,
            cols: 1,
            caption: Some(vec![text("cap")]),
            prov: None,
            cells: vec![cell(0, "h"), cell(1, "v")],
        }),
        Block::Footnote {
            number: 4,
            content: vec![para("n1"), para("n2")],
            prov: None,
        },
        Block::PageFooter {
            content: vec![para("f")],
            apply: HeaderFooterApply::Odd,
            prov: None,
        },
        Block::Formula(Formula {
            raw_eqedit: "a".into(),
            latex: None,
            prov: None,
        }),
        Block::ThreadContinuation {
            thread_id: "t1".into(),
        },
        Block::Custom {
            namespace: "ns".into(),
            body: String::new(),
        },
    ];
    let p = build_payload(
        &doc(blocks),
        &ConvertOptions::default(),
        &LocationMap::new(),
        &LossReport::new(),
    );
    let b = &p.sections[0].blocks;
    assert_eq!(b[0].kind, "list");
    assert_eq!(b[0].text.as_deref(), Some("a\nb"));
    assert_eq!(b[0].ordered, Some(false));
    assert_eq!(b[0].items[1].index, 1);
    assert_eq!(b[0].items[1].blocks[0].id, "section[0]/block[0]/ldiv[1]/block[0]");
    assert_eq!(b[1].kind, "table");
    assert_eq!(b[1].text.as_deref(), Some("h\nv"));
    let t = b[1].table.as_ref().unwrap();
    assert_eq!(t.caption.as_deref(), Some("cap"));
    assert_eq!(t.cells[1].blocks[0].id, "section[0]/block[1]/cell[1]/block[0]");
    assert!(t.cells[0].is_header);
    assert_eq!(t.cells[0].col_span, 2);
    assert_eq!(b[2].kind, "footnote");
    assert_eq!(b[2].text.as_deref(), Some("[^4] n1\nn2"));
    assert_eq!(b[2].children[1].id, "section[0]/block[2]/block[1]");
    assert_eq!(b[3].kind, "page_footer");
    assert_eq!(b[3].text.as_deref(), Some("odd: f"));
    assert_eq!(b[4].text.as_deref(), Some("a"));
    assert_eq!(b[4].formula.as_ref().unwrap().latex, None);
    assert_eq!(b[5].kind, "thread_continuation");
    assert_eq!(b[5].thread_id.as_deref(), Some("t1"));
    assert_eq!(b[6].kind, "custom");
    assert_eq!(b[6].custom_namespace.as_deref(), Some("ns"));
    assert_eq!(
        b[6].location.reason.as_deref(),
        Some("custom block has no layout provenance")
    );
}

#[test]
fn data_uri_pictures_add_no_assets() {
    let p = build_payload(
        &doc(vec![Block::Picture {
            data: b"hello".to_vec(),
            extension: "bin".into(),
            geometry: None,
            lost: None,
            prov: None,
        }]),
        &ConvertOptions::default(),
        &LocationMap::new(),
        &LossReport::new(),
    );
    let r = p.sections[0].blocks[0].resource.as_ref().unwrap();
    assert_eq!(r.uri, "data:application/octet-stream;base64,aGVsbG8=");
    assert_eq!(r.asset_path, None);
    assert!(p.assets.is_empty());
}

#[test]
fn payload_and_inlines_clone_deeply() {
    let content = vec![
        text("a"),
        Inline::Styled(
            StyleFlags {
                bold: true,
                ..Default::default()
            },
            vec![text("b"), Inline::Tab],
        ),
        Inline::Href {
            uri: "https://x".into(),
            content: vec![text("c")],
        },
    ];
    let copy = content.clone();
    assert_eq!(copy, content);
    let d = doc(vec![
        Block::Paragraph {
            content,
            lost: None,
            prov: None,
        },
        Block::List {
            ordered: true,
            items: vec![ListItem {
                content: vec![para("item")],
            }],
            lost: None,
            prov: None,
        },
    ]);
    let p = build_payload(
        &d,
        &ConvertOptions::default(),
        &LocationMap::new(),
        &LossReport::new(),
    );
    let q = p.clone();
    assert_eq!(q, p);
    assert_eq!(q.sections[0].blocks[0].text.as_deref(), Some("ab\tc"));
    assert_eq!(q.sections[0].blocks[0].inlines[1].children.len(), 2);
}
