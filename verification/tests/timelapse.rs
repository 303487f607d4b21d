use pixaki_converter::canvas::{BlendMode, Cel, Frame, Image};
use pixaki_converter::pixel_studio_pro_v2::{
    Action, Clip, Document, Frame as PspFrame, History, Layer as PspLayer, LayerGroup, Tool, TOOL_COUNT,
};
use pixaki_converter::pixels::{blit, saturate_u16, snapshot_image, PixelBuffer, Rgba};
use pixaki_converter::timelapse::{
    action_kind, assemble_timelapse, layer_run, replayed_images, ActionOutcome, cel_coordinate, extent, is_step_image, replay_plan, source_frame, source_step,
    timelapse_layers, yields_frame, ActionKind, LayerRun, Replay, TimelapseBuilder, TimelapseError,
    TIMELAPSE_FRAME_MS,
};

#[test]
fn tool_codes() {
    assert_eq!(Tool::try_from(0), Ok(Tool::Pen));
    assert_eq!(Tool::try_from(10), Ok(Tool::Move));
    assert_eq!(Tool::try_from(18), Ok(Tool::ReplaceColor));
    assert_eq!(Tool::try_from(29), Ok(Tool::OutlineTool));
    assert_eq!(Tool::try_from(30), Err(()));
    assert_eq!(Tool::try_from(u32::MAX), Err(()));
    for v in 0..TOOL_COUNT {
        assert_eq!(Tool::try_from(v).unwrap().code(), v);
    }
}

#[test]
fn tool_groups() {
    assert_eq!(action_kind(Tool::Move), ActionKind::Move);
    assert_eq!(action_kind(Tool::RotateRect), ActionKind::RotateRect);
    assert_eq!(action_kind(Tool::PasteImage), ActionKind::PasteImage);
    assert_eq!(action_kind(Tool::Paste), ActionKind::Ignored);
    assert_eq!(action_kind(Tool::Cut), ActionKind::Positions);
    assert_eq!(action_kind(Tool::Fill), ActionKind::Positions);
    assert_eq!(action_kind(Tool::RotateLeft), ActionKind::Transform);
    assert_eq!(action_kind(Tool::ReplaceColor), ActionKind::ReplaceColor);
    assert_eq!(action_kind(Tool::Pipette), ActionKind::Ignored);
    assert!(yields_frame(ActionKind::ReplaceColor, false));
    assert!(!yields_frame(ActionKind::Ignored, true));
    assert!(yields_frame(ActionKind::Positions, true));
    assert!(!yields_frame(ActionKind::Move, false));
}

#[test]
fn defaults() {
    let h = History::default();
    assert!(h.actions.is_empty() && h.index == 0 && h.source.is_none());
    let a = Action::default();
    assert_eq!(a.tool, 0);
    assert!(!a.invalid && a.meta.is_none() && a.positions.is_empty());
    let g = LayerGroup::default();
    assert!(g.layers.is_empty() && !g.hidden && g.name.is_empty());
}

fn action(tool: u32) -> Action {
    Action { tool, ..Action::default() }
}

#[test]
fn replay_plans() {
    let h = History { actions: vec![action(0), action(2)], index: 5, source: None };
    assert_eq!(replay_plan(&h, true), Replay::Actions(2));
    let h = History { actions: vec![action(0), action(2)], index: 1, source: None };
    assert_eq!(replay_plan(&h, true), Replay::Actions(1));
    let h = History { actions: vec![action(0)], index: 0, source: Some(String::from("x")) };
    assert_eq!(replay_plan(&h, true), Replay::SourceImage);
    assert_eq!(replay_plan(&h, false), Replay::Actions(0));
}

#[test]
fn extents_and_coordinates() {
    assert_eq!(extent(0, 10), 10);
    assert_eq!(extent(5, 5), 1);
    assert_eq!(extent(10, 0), 1);
    assert_eq!(extent(-5000, 5000), 4096);
    assert_eq!(cel_coordinate(3, -10), -7);
    assert_eq!(cel_coordinate(40000, 1), 32767);
    assert_eq!(cel_coordinate(-40000, -1), -32768);
    assert_eq!(saturate_u16(70000), u16::MAX);
    assert_eq!(saturate_u16(640), 640);
}

fn psp_layer(name: &str, hidden: bool) -> PspLayer {
    PspLayer {
        id: String::from("id"),
        name: String::from(name),
        opacity: 200,
        hidden,
        linked: false,
        outline: 0,
        lock: 0,
        sx: 0,
        sy: 0,
        version: 1,
        history_json: None,
    }
}

fn psp_doc(clips: Vec<Clip>) -> Document {
    Document {
        version: 2,
        id: String::from("abc"),
        name: String::from("test"),
        source: None,
        width: 32,
        height: 32,
        doc_type: 0,
        clips,
        background: false,
        tile_mode: false,
        tile_fade: 0,
    }
}

fn psp_frame(layers: Vec<PspLayer>) -> PspFrame {
    PspFrame { id: String::from("f"), layers, layer_groups: vec![], active_layer_index: None, reference: None }
}

#[test]
fn source_frame_errors_and_layers() {
    assert_eq!(source_frame(&psp_doc(vec![])).err(), Some(TimelapseError::NoClips));
    let empty_clip = Clip { id: String::from("c"), name: String::from("Clip 1"), frames: vec![], layer_types: vec![] };
    assert_eq!(source_frame(&psp_doc(vec![empty_clip])).err(), Some(TimelapseError::NoFrames));

    let clip = Clip {
        id: String::from("c"),
        name: String::from("Clip 1"),
        frames: vec![psp_frame(vec![psp_layer("Layer 1", false), psp_layer("Layer 2", true)])],
        layer_types: vec![0, 0],
    };
    let doc = psp_doc(vec![clip]);
    let frame = source_frame(&doc).unwrap();
    let layers = timelapse_layers(frame);
    assert_eq!(layers.len(), 2);
    assert_eq!(layers[0].name, "Layer 1");
    assert!(layers[0].visible);
    assert!(!layers[1].visible);
    assert_eq!(layers[1].opacity, 200);
    assert_eq!(layers[1].blend_mode, BlendMode::Normal);
}

fn image(tag: u8) -> Image {
    Image { width: 1, height: 1, rgba: vec![tag, 0, 0, 255] }
}

fn cel(frame_index: usize, layer_index: usize, image_index: usize, x: i16, y: i16) -> Cel {
    Cel { frame_index, layer_index, x, y, image_index }
}

#[test]
fn drawn_layers_stay_visible() {
    let layers = timelapse_layers(&psp_frame(vec![
        psp_layer("a", false),
        psp_layer("b", false),
        psp_layer("c", false),
    ]));
    let b = TimelapseBuilder::new(layers);
    assert_eq!(b.frame_count(), 0);
    assert_eq!(b.layer_count(), 3);
    let b = b.record_step(0, image(1), 1, 2);
    let b = b.record_step(0, image(2), 1, 2);
    let b = b.record_step(2, image(3), -4, 5);
    assert_eq!(b.frame_count(), 3);
    let doc = b.finish(32, 16);
    assert_eq!((doc.width, doc.height), (32, 16));
    assert_eq!(doc.frames, vec![Frame { duration_ms: TIMELAPSE_FRAME_MS }; 3]);
    assert_eq!(doc.images.len(), 3);
    assert_eq!(doc.images[2].rgba, vec![3, 0, 0, 255]);
    assert_eq!(
        doc.cels,
        vec![cel(0, 0, 0, 1, 2), cel(1, 0, 1, 1, 2), cel(2, 0, 1, 1, 2), cel(2, 2, 2, -4, 5)]
    );
}

fn buffer(width: u32, height: u32, tags: &[u8]) -> PixelBuffer {
    let mut rgba = Vec::new();
    for t in tags {
        rgba.extend_from_slice(&[*t, 0, 0, 255]);
    }
    PixelBuffer::from_rgba(width, height, &rgba).unwrap()
}

fn tags(b: &PixelBuffer) -> Vec<u8> {
    b.pixels.iter().map(|p| p.r).collect()
}

#[test]
fn blit_partial_overlap() {
    let mut dst = PixelBuffer::new(3, 2);
    let src = buffer(2, 2, &[1, 2, 3, 4]);
    assert!(blit(&mut dst, &src, 2, -1));
    assert_eq!(tags(&dst), vec![0, 0, 3, 0, 0, 0]);
    assert_eq!(dst.pixels[2], Rgba { r: 3, g: 0, b: 0, a: 255 });
    assert_eq!(dst.pixels[0], Rgba { r: 0, g: 0, b: 0, a: 0 });
}

#[test]
fn blit_without_overlap_draws_nothing() {
    let mut dst = buffer(2, 2, &[9, 9, 9, 9]);
    let src = buffer(1, 1, &[5]);
    assert!(!blit(&mut dst, &src, 2, 0));
    assert!(!blit(&mut dst, &src, -1, 0));
    assert_eq!(tags(&dst), vec![9, 9, 9, 9]);
}

#[test]
fn source_step_offsets_by_bounds() {
    let src = buffer(2, 1, &[7, 8]);
    let (img, drew) = source_step(3, 2, &src, -1, -1);
    assert!(drew);
    assert_eq!(tags(&img), vec![0, 0, 0, 0, 7, 8]);
    let (_, drew) = source_step(3, 2, &src, 5, 0);
    assert!(!drew);
}

#[test]
fn rgba_round_trip_and_snapshot() {
    let bytes: Vec<u8> = (0u8..24).collect();
    let b = PixelBuffer::from_rgba(3, 2, &bytes).unwrap();
    assert_eq!(b.to_rgba(), bytes);
    assert!(PixelBuffer::from_rgba(3, 2, &bytes[..20].to_vec()).is_none());
    let img = snapshot_image(&b);
    assert_eq!((img.width, img.height), (3, 2));
    assert_eq!(img.rgba, bytes);
}

#[test]
fn whole_timelapse_layers_in_order_at_fixed_places() {
    let layers = timelapse_layers(&psp_frame(vec![
        psp_layer("a", false),
        psp_layer("b", false),
        psp_layer("c", false),
    ]));
    let runs = vec![
        LayerRun { x: 1, y: 2, width: 1, height: 1, images: vec![image(1), image(2)] },
        LayerRun { x: 0, y: 0, width: 1, height: 1, images: vec![] },
        LayerRun { x: -4, y: 5, width: 1, height: 1, images: vec![image(3)] },
    ];
    let doc = assemble_timelapse(32, 16, layers, runs);
    assert_eq!((doc.width, doc.height), (32, 16));
    assert_eq!(doc.layers.len(), 3);
    assert_eq!(doc.frames, vec![Frame { duration_ms: TIMELAPSE_FRAME_MS }; 3]);
    let tags: Vec<u8> = doc.images.iter().map(|i| i.rgba[0]).collect();
    assert_eq!(tags, vec![1, 2, 3]);
    assert_eq!(
        doc.cels,
        vec![cel(0, 0, 0, 1, 2), cel(1, 0, 1, 1, 2), cel(2, 0, 1, 1, 2), cel(2, 2, 2, -4, 5)]
    );
}

#[test]
fn empty_timelapse() {
    let layers = timelapse_layers(&psp_frame(vec![psp_layer("a", false)]));
    let doc = assemble_timelapse(8, 8, layers, vec![LayerRun { x: 0, y: 0, width: 1, height: 1, images: vec![] }]);
    assert!(doc.frames.is_empty() && doc.images.is_empty() && doc.cels.is_empty());
}

#[test]
fn step_image_shape() {
    assert!(is_step_image(&image(7)));
    assert!(!is_step_image(&Image { width: 2, height: 1, rgba: vec![0; 4] }));
    assert!(!is_step_image(&Image { width: 0, height: 0, rgba: vec![] }));
    assert!(!is_step_image(&Image { width: 5000, height: 1, rgba: vec![0; 20000] }));
    assert!(is_step_image(&Image { width: 4096, height: 2, rgba: vec![0; 4 * 4096 * 2] }));
}

#[test]
fn replay_outcomes_to_run() {
    let outcomes = vec![
        ActionOutcome { kind: ActionKind::Positions, drew: true, image: Some(image(1)) },
        ActionOutcome { kind: ActionKind::Positions, drew: false, image: None },
        ActionOutcome { kind: ActionKind::Ignored, drew: true, image: None },
        ActionOutcome { kind: ActionKind::ReplaceColor, drew: false, image: Some(image(2)) },
        ActionOutcome { kind: ActionKind::Move, drew: false, image: Some(image(9)) },
    ];
    let images = replayed_images(outcomes);
    let tags: Vec<u8> = images.iter().map(|i| i.rgba[0]).collect();
    assert_eq!(tags, vec![1, 2]);

    let run = layer_run(1, 1, images, 3, -40000, -10, 0);
    assert_eq!((run.x, run.y, run.width, run.height, run.images.len()), (-7, -32768, 1, 1, 2));
    let empty = layer_run(4, 4, vec![], i32::MAX, i32::MAX, i32::MAX, i32::MAX);
    assert_eq!((empty.x, empty.y, empty.images.len()), (0, 0, 0));
}
