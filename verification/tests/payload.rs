use hangulang::ir::block::Block;
use hangulang::ir::inline::Inline;
use hangulang::ir::prov::{Location, LocationMap, Prov};
use hangulang::ir::{Section, SirDocument};
use hangulang::loss::LossReport;
use hangulang::options::ConvertOptions;
use hangulang::payload::build_payload;
use hangulang::resources::ResourcePolicy;

fn doc(blocks: Vec<Block>) -> SirDocument {
    SirDocument {
        sections: vec![Section { blocks }],
        doclang_version: "0.6",
    }
}

#[test]
fn location_status_is_not_requested_by_default() {
    let payload = build_payload(
        &doc(vec![Block::Paragraph {
            content: vec![Inline::Text("hello".into())],
            lost: None,
            prov: Some(Prov::text(0, 0)),
        }]),
        &ConvertOptions::default(),
        &LocationMap::new(),
        &LossReport::new(),
    );
    let block = &payload.sections[0].blocks[0];
    assert_eq!(block.kind, "paragraph");
    assert_eq!(block.text.as_deref(), Some("hello"));
    assert_eq!(block.location.status, "not_requested");
}

#[test]
fn exact_location_carries_page_and_bbox() {
    let mut locs = LocationMap::new();
    locs.insert(
        Prov::text(0, 0),
        Location {
            page: 2,
            x_min: 1,
            y_min: 2,
            x_max: 3,
            y_max: 4,
        },
    );
    let opts = ConvertOptions {
        with_location: true,
        ..ConvertOptions::default()
    };
    let payload = build_payload(
        &doc(vec![Block::Paragraph {
            content: vec![Inline::Text("hello".into())],
            lost: None,
            prov: Some(Prov::text(0, 0)),
        }]),
        &opts,
        &locs,
        &LossReport::new(),
    );
    let location = &payload.sections[0].blocks[0].location;
    assert_eq!(location.status, "exact");
    assert_eq!(location.page, Some(2));
    assert_eq!(location.bbox.unwrap().x_max, 3);
}

#[test]
fn asset_dir_policy_adds_payload_asset() {
    let opts = ConvertOptions {
        resource_policy: ResourcePolicy::asset_dir("assets"),
        ..ConvertOptions::default()
    };
    let payload = build_payload(
        &doc(vec![Block::Picture {
            data: b"abc".to_vec(),
            extension: "png".into(),
            geometry: None,
            lost: None,
            prov: None,
        }]),
        &opts,
        &LocationMap::new(),
        &LossReport::new(),
    );
    let block = &payload.sections[0].blocks[0];
    assert_eq!(
        block.resource.as_ref().unwrap().uri,
        "assets/section-0-block-0.png"
    );
    assert_eq!(payload.assets.len(), 1);
    assert_eq!(payload.assets[0].path, "section-0-block-0.png");
    assert_eq!(payload.assets[0].data_base64, "YWJj");
}
