use pixaki_converter::canvas::{map_blend_mode, BlendMode};
use pixaki_converter::pixaki::{
    cel_placements, layer_name, legacy_cel_placements, output_layers, plan_legacy, plan_modern, Cel, Clip,
    Document, DocumentV2, FrameV2, Layer, LayerV2, LegacyPlacement, Placement, Range, SizeV2, Size, Sprite,
    SymbolV2,
};

fn clip(id: &str, range: Option<(u32, u32)>) -> Clip {
    Clip { item_identifier: String::from(id), range: range.map(|(start, end)| Range { start, end }) }
}

fn cel(id: &str) -> Cel {
    Cel { identifier: String::from(id), origin: Some((0, 0)) }
}

fn layer(name: &str, blend: Option<&str>, clips: Vec<Clip>) -> Layer {
    Layer {
        name: String::from(name),
        is_visible: true,
        opacity: 255,
        blend_mode: blend.map(String::from),
        clips,
    }
}

fn p(frame_index: u32, layer_index: usize, cel_index: usize) -> Placement {
    Placement { frame_index, layer_index, cel_index }
}

#[test]
fn blend_mode_names() {
    assert_eq!(map_blend_mode("normal"), BlendMode::Normal);
    assert_eq!(map_blend_mode("multiply"), BlendMode::Multiply);
    assert_eq!(map_blend_mode("colorDodge"), BlendMode::ColorDodge);
    assert_eq!(map_blend_mode("luminosity"), BlendMode::Luminosity);
    assert_eq!(map_blend_mode("ColorDodge"), BlendMode::Normal);
    assert_eq!(map_blend_mode("plus-lighter"), BlendMode::Normal);
    assert_eq!(map_blend_mode(""), BlendMode::Normal);
}

#[test]
fn placements_follow_frames_layers_clips() {
    let sprite = Sprite {
        layers: vec![
            layer("bg", None, vec![clip("a", Some((0, 1))), clip("b", Some((2, 2)))]),
            layer("fg", Some("screen"), vec![clip("c", None)]),
        ],
        cels: vec![cel("a"), cel("b"), cel("c")],
        size: Size { width: 32, height: 16 },
        duration: 3,
    };
    let out = cel_placements(&sprite);
    assert_eq!(out, vec![p(0, 0, 0), p(0, 1, 2), p(1, 0, 0), p(2, 0, 1)]);
}

#[test]
fn range_end_is_inclusive() {
    let sprite = Sprite {
        layers: vec![layer("l", None, vec![clip("a", Some((1, 2)))])],
        cels: vec![cel("a")],
        size: Size { width: 1, height: 1 },
        duration: 4,
    };
    assert_eq!(cel_placements(&sprite), vec![p(1, 0, 0), p(2, 0, 0)]);
}

#[test]
fn missing_cel_is_skipped_and_last_duplicate_wins() {
    let sprite = Sprite {
        layers: vec![layer("l", None, vec![clip("missing", None), clip("dup", None)])],
        cels: vec![cel("dup"), cel("other"), cel("dup")],
        size: Size { width: 1, height: 1 },
        duration: 1,
    };
    assert_eq!(cel_placements(&sprite), vec![p(0, 0, 2)]);
}

#[test]
fn zero_duration_has_no_placements() {
    let sprite = Sprite {
        layers: vec![layer("l", None, vec![clip("a", None)])],
        cels: vec![cel("a")],
        size: Size { width: 1, height: 1 },
        duration: 0,
    };
    assert!(cel_placements(&sprite).is_empty());
}

#[test]
fn modern_layers_and_plan() {
    let sprite = Sprite {
        layers: vec![layer("one", None, vec![]), layer("two", Some("overlay"), vec![clip("x", None)])],
        cels: vec![cel("x")],
        size: Size { width: 64, height: 48 },
        duration: 5,
    };
    let layers = output_layers(&sprite);
    assert_eq!(layers.len(), 2);
    assert_eq!(layers[0].name, "one");
    assert_eq!(layers[0].blend_mode, BlendMode::Normal);
    assert_eq!(layers[1].blend_mode, BlendMode::Overlay);
    assert_eq!(layers[1].opacity, 255);
    assert!(layers[1].visible);

    let doc = Document { sprites: vec![sprite] };
    let plan = plan_modern(&doc).unwrap();
    assert_eq!((plan.width, plan.height, plan.frame_count), (64, 48, 5));
    assert_eq!(plan.placements, vec![p(0, 1, 0)]);
    assert!(plan_modern(&Document { sprites: vec![] }).is_none());
}

fn lv2(file: &str, alpha: u8, visible: bool) -> LayerV2 {
    LayerV2 { alpha, image_filename: String::from(file), visible }
}

#[test]
fn legacy_layer_names() {
    assert_eq!(layer_name(0), "Layer 0");
    assert_eq!(layer_name(12), "Layer 12");
}

#[test]
fn legacy_plan_uses_first_frame_layers() {
    let sym = SymbolV2 {
        name: String::from("Symbol 1"),
        frames: vec![
            FrameV2 { duration: 100, layers: vec![lv2("a.png", 255, true), lv2("b.png", 128, false)] },
            FrameV2 { duration: 100, layers: vec![lv2("c.png", 255, true)] },
            FrameV2 {
                duration: 100,
                layers: vec![lv2("d.png", 255, true), lv2("e.png", 255, true), lv2("f.png", 255, true)],
            },
        ],
    };
    let placements = legacy_cel_placements(&sym);
    let pl = |frame_index, layer_index| LegacyPlacement { frame_index, layer_index };
    assert_eq!(placements, vec![pl(0, 0), pl(0, 1), pl(1, 0), pl(2, 0), pl(2, 1)]);

    let doc = DocumentV2 { size: SizeV2 { width: 64, height: 64 }, symbols: vec![sym] };
    let plan = plan_legacy(&doc);
    assert_eq!((plan.width, plan.height, plan.frame_count), (64, 64, 3));
    assert_eq!(plan.layers.len(), 2);
    assert_eq!(plan.layers[1].name, "Layer 1");
    assert_eq!(plan.layers[1].opacity, 128);
    assert!(!plan.layers[1].visible);
    assert_eq!(plan.layers[0].blend_mode, BlendMode::Normal);
}

#[test]
fn legacy_plan_without_symbols_is_empty() {
    let doc = DocumentV2 { size: SizeV2 { width: 8, height: 4 }, symbols: vec![] };
    let plan = plan_legacy(&doc);
    assert_eq!((plan.width, plan.height, plan.frame_count), (8, 4, 0));
    assert!(plan.layers.is_empty());
    assert!(plan.placements.is_empty());
}
