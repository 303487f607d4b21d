//! Turning the drawing history of a Pixel Studio Pro document into a
//! timelapse: one output frame per history step that changed a layer, in which
//! every layer drawn so far shows its latest image.
//!
//! The steps are driven from outside (replaying an action onto an image is
//! done by the caller); this module decides what is replayed, sizes and
//! positions the per-layer images, and assembles the frames and cels.

use vstd::prelude::*;
use crate::canvas;
use crate::canvas::BlendMode;
use crate::pixel_studio_pro_v2::{tool_code, Document, Frame, History, Layer, Tool};
use crate::pixels::{blit, lemma_index_in_bounds, span_hits, transparent, PixelBuffer};

verus! {

/// The display time of every timelapse frame, in milliseconds.
pub const TIMELAPSE_FRAME_MS: u32 = 100;

/// The largest width or height of a per-layer timelapse image.
pub const MAX_EXTENT: i32 = 4096;

/// Why a document has no timelapse.
#[derive(Debug, Clone, Copy, PartialEq, Eq, Structural)]
pub enum TimelapseError {
    /// The document has no clip.
    NoClips,
    /// The first clip has no frame.
    NoFrames,
}

/// The frame whose layers the timelapse replays: the first frame of the first
/// clip.
pub fn source_frame(doc: &Document) -> (r: Result<&Frame, TimelapseError>)
    ensures
        doc.clips@.len() == 0 ==> r == Err::<&Frame, _>(TimelapseError::NoClips),
        doc.clips@.len() > 0 && doc.clips@[0].frames@.len() == 0 ==> r == Err::<&Frame, _>(
            TimelapseError::NoFrames,
        ),
        doc.clips@.len() > 0 && doc.clips@[0].frames@.len() > 0 ==> r == Ok::<&Frame, TimelapseError>(
            &doc.clips@[0].frames@[0],
        ),
{
    if doc.clips.len() == 0 {
        return Err(TimelapseError::NoClips);
    }
    let clip = &doc.clips[0];
    if clip.frames.len() == 0 {
        return Err(TimelapseError::NoFrames);
    }
    Ok(&clip.frames[0])
}

/// The output layer of a Pixel Studio Pro layer: same name and opacity,
/// visible unless hidden, normal blending.
pub open spec fn timelapse_layer(l: Layer) -> canvas::Layer {
    canvas::Layer { name: l.name, opacity: l.opacity, visible: !l.hidden, blend_mode: BlendMode::Normal }
}

/// A timelapse output layer keeps its layer's name and opacity whatever its
/// visibility, is visible exactly when the layer is not hidden, and blends
/// normally.
pub proof fn lemma_timelapse_layer_keeps_fields(l: Layer)
    ensures
        timelapse_layer(l).name == l.name,
        timelapse_layer(l).opacity == l.opacity,
        timelapse_layer(l).visible <==> !l.hidden,
        timelapse_layer(l).blend_mode == BlendMode::Normal,
{
}

/// The output layers of the timelapse, one per layer of `frame`.
pub fn timelapse_layers(frame: &Frame) -> (out: Vec<canvas::Layer>)
    ensures
        out@.len() == frame.layers@.len(),
        forall|i: int| 0 <= i < out@.len() ==> #[trigger] out@[i] == timelapse_layer(frame.layers@[i]),
        forall|i: int| 0 <= i < out@.len() ==> {
            let o = #[trigger] out@[i];
            let l = frame.layers@[i];
            &&& o.name == l.name
            &&& o.opacity == l.opacity
            &&& o.visible == !l.hidden
            &&& o.blend_mode == BlendMode::Normal
        },
{
    let mut out: Vec<canvas::Layer> = Vec::new();
    let mut i: usize = 0;
    while i < frame.layers.len()
        invariant
            i <= frame.layers.len(),
            out@.len() == i,
            forall|k: int| 0 <= k < i ==> #[trigger] out@[k] == timelapse_layer(frame.layers@[k]),
        decreases frame.layers.len() - i,
    {
        let l = &frame.layers[i];
        out.push(canvas::Layer {
            name: l.name.clone(),
            opacity: l.opacity,
            visible: !l.hidden,
            blend_mode: BlendMode::Normal,
        });
        i = i + 1;
    }
    out
}

/// How a layer's history is replayed.
#[derive(Debug, Clone, Copy, PartialEq, Eq, Structural)]
pub enum Replay {
    /// No action is in effect but a source image exists: the source image is
    /// the single step.
    SourceImage,
    /// The first `n` actions are replayed, one step each.
    Actions(usize),
}

/// The number of actions in effect: `index`, at most the number of actions.
pub open spec fn actions_in_effect(h: History) -> int {
    if (h.index as int) < h.actions@.len() {
        h.index as int
    } else {
        h.actions@.len() as int
    }
}

/// The actions in effect are the first `index` ones, but never more than
/// the history holds.
pub proof fn lemma_actions_in_effect(h: History)
    ensures
        0 <= actions_in_effect(h) <= h.actions@.len(),
        actions_in_effect(h) <= h.index,
        actions_in_effect(h) == h.index || actions_in_effect(h) == h.actions@.len(),
{
}

/// How to replay `history`; `has_source` tells whether its source image
/// could be read.
pub fn replay_plan(history: &History, has_source: bool) -> (r: Replay)
    ensures
        r == (if actions_in_effect(*history) == 0 && has_source {
            Replay::SourceImage
        } else {
            Replay::Actions(actions_in_effect(*history) as usize)
        }),
{
    let index = history.index as usize;
    let count = if index < history.actions.len() { index } else { history.actions.len() };
    if count == 0 && has_source {
        Replay::SourceImage
    } else {
        Replay::Actions(count)
    }
}

/// The groups of tools that are replayed alike.
#[derive(Debug, Clone, Copy, PartialEq, Eq, Structural)]
pub enum ActionKind {
    /// Moves a selection.
    Move,
    /// Rotates a selection.
    RotateRect,
    /// Pastes an image.
    PasteImage,
    /// Sets or clears the pixels at the action's positions.
    Positions,
    /// Mirrors, flips or rotates the layer.
    Transform,
    /// Replaces one colour by another.
    ReplaceColor,
    /// Changes no pixel of the layer.
    Ignored,
}

/// The group of a tool.
pub open spec fn kind_of(t: Tool) -> ActionKind {
    match t {
        Tool::Move => ActionKind::Move,
        Tool::RotateRect => ActionKind::RotateRect,
        Tool::PasteImage => ActionKind::PasteImage,
        Tool::Pen | Tool::DotPen | Tool::DitheringPen | Tool::Brush | Tool::OutlineTool | Tool::Fill
        | Tool::Eraser | Tool::Clear | Tool::EraserPen | Tool::Cut => ActionKind::Positions,
        Tool::MirrorByX | Tool::MirrorByY | Tool::FlipByX | Tool::FlipByY | Tool::RotateLeft
        | Tool::RotateRight => ActionKind::Transform,
        Tool::ReplaceColor => ActionKind::ReplaceColor,
        _ => ActionKind::Ignored,
    }
}

/// The drawing tools, replayed by setting or clearing the pixels at the
/// action's positions: codes 0 (Pen), 2 (Eraser), 3 (Fill), 6 (Clear), 8 (Cut),
/// 17 (DotPen), 19 (EraserPen), 22 (DitheringPen), 25 (Brush) and 29
/// (OutlineTool).
pub open spec fn is_drawing_tool(t: Tool) -> bool {
    t == Tool::Pen || t == Tool::DotPen || t == Tool::DitheringPen || t == Tool::Brush || t == Tool::OutlineTool
        || t == Tool::Fill || t == Tool::Eraser || t == Tool::Clear || t == Tool::EraserPen || t == Tool::Cut
}

/// The tools that mirror, flip or rotate the whole layer.
pub open spec fn is_transform_tool(t: Tool) -> bool {
    t == Tool::MirrorByX || t == Tool::MirrorByY || t == Tool::FlipByX || t == Tool::FlipByY || t == Tool::RotateLeft
        || t == Tool::RotateRight
}

/// Tool groups by code: the drawing tools (codes 0, 2, 3, 6, 8, 17, 19, 22,
/// 25, 29) form the positions group; codes 11 to 16 the transform group; 10
/// moves, 21 rotates a selection, 20 pastes an image, 18 replaces a colour;
/// every other tool is ignored.
pub proof fn lemma_tool_groups(t: Tool)
    ensures
        kind_of(t) == ActionKind::Positions <==> (tool_code(t) == 0 || tool_code(t) == 2 || tool_code(t) == 3
            || tool_code(t) == 6 || tool_code(t) == 8 || tool_code(t) == 17 || tool_code(t) == 19 || tool_code(t)
            == 22 || tool_code(t) == 25 || tool_code(t) == 29),
        kind_of(t) == ActionKind::Transform <==> 11 <= tool_code(t) <= 16,
        kind_of(t) == ActionKind::Move <==> tool_code(t) == 10,
        kind_of(t) == ActionKind::RotateRect <==> tool_code(t) == 21,
        kind_of(t) == ActionKind::PasteImage <==> tool_code(t) == 20,
        kind_of(t) == ActionKind::ReplaceColor <==> tool_code(t) == 18,
        kind_of(t) == ActionKind::Ignored <==> (tool_code(t) == 1 || tool_code(t) == 4 || tool_code(t) == 5
            || tool_code(t) == 7 || tool_code(t) == 9 || tool_code(t) == 23 || tool_code(t) == 24 || tool_code(t)
            == 26 || tool_code(t) == 27 || tool_code(t) == 28),
        kind_of(t) == ActionKind::Positions <==> is_drawing_tool(t),
        kind_of(t) == ActionKind::Transform <==> is_transform_tool(t),
{
}

/// The group of a tool.
pub fn action_kind(t: Tool) -> (k: ActionKind)
    ensures
        k == kind_of(t),
        k == ActionKind::Positions <==> is_drawing_tool(t),
        k == ActionKind::Transform <==> is_transform_tool(t),
        k == ActionKind::Move <==> t == Tool::Move,
        k == ActionKind::RotateRect <==> t == Tool::RotateRect,
        k == ActionKind::PasteImage <==> t == Tool::PasteImage,
        k == ActionKind::ReplaceColor <==> t == Tool::ReplaceColor,
{
    match t {
        Tool::Move => ActionKind::Move,
        Tool::RotateRect => ActionKind::RotateRect,
        Tool::PasteImage => ActionKind::PasteImage,
        Tool::Pen | Tool::DotPen | Tool::DitheringPen | Tool::Brush | Tool::OutlineTool | Tool::Fill
        | Tool::Eraser | Tool::Clear | Tool::EraserPen | Tool::Cut => ActionKind::Positions,
        Tool::MirrorByX | Tool::MirrorByY | Tool::FlipByX | Tool::FlipByY | Tool::RotateLeft
        | Tool::RotateRight => ActionKind::Transform,
        Tool::ReplaceColor => ActionKind::ReplaceColor,
        _ => ActionKind::Ignored,
    }
}

/// Whether replaying an action of group `kind` yields a timelapse frame:
/// a colour replacement always does; other groups do when the replay
/// reported that it drew (`drew`), and an ignored one never draws.
pub open spec fn yields(kind: ActionKind, drew: bool) -> bool {
    kind == ActionKind::ReplaceColor || (kind != ActionKind::Ignored && drew)
}

/// Which replayed actions yield a frame: every group but the ignored one
/// yields one when its replay drew, a colour replacement always does, an
/// ignored action never does, and nothing else yields one without drawing.
pub proof fn lemma_yields(kind: ActionKind, drew: bool)
    ensures
        kind != ActionKind::Ignored && drew ==> yields(kind, drew),
        kind == ActionKind::ReplaceColor ==> yields(kind, drew),
        kind == ActionKind::Ignored ==> !yields(kind, drew),
        yields(kind, drew) && kind != ActionKind::ReplaceColor ==> drew,
{
}

/// Whether replaying an action of group `kind` yields a timelapse frame
/// (see `yields`).
pub fn yields_frame(kind: ActionKind, drew: bool) -> (r: bool)
    ensures
        r == yields(kind, drew),
        kind != ActionKind::Ignored && drew ==> r,
        kind == ActionKind::ReplaceColor ==> r,
        kind == ActionKind::Ignored ==> !r,
        r && kind != ActionKind::ReplaceColor ==> drew,
{
    match kind {
        ActionKind::ReplaceColor => true,
        ActionKind::Ignored => false,
        _ => drew,
    }
}

/// `v` clamped to `lo..=hi`.
pub open spec fn clamp(v: int, lo: int, hi: int) -> int {
    if v < lo {
        lo
    } else if v > hi {
        hi
    } else {
        v
    }
}

/// Clamping gives a value in `lo..=hi`, and leaves a value already there
/// unchanged.
pub proof fn lemma_clamp(v: int, lo: int, hi: int)
    requires
        lo <= hi,
    ensures
        lo <= clamp(v, lo, hi) <= hi,
        lo <= v <= hi ==> clamp(v, lo, hi) == v,
        v < lo ==> clamp(v, lo, hi) == lo,
        v > hi ==> clamp(v, lo, hi) == hi,
{
}

/// The width (or height) of a layer's timelapse image from the bounds
/// `min..max` of its history: their distance, clamped to `1..=MAX_EXTENT`.
pub fn extent(min: i32, max: i32) -> (r: u32)
    requires
        i32::MIN <= max - min <= i32::MAX,
    ensures
        r == clamp(max - min, 1, MAX_EXTENT as int),
{
    let d = max - min;
    if d < 1 {
        1
    } else if d > MAX_EXTENT {
        MAX_EXTENT as u32
    } else {
        d as u32
    }
}

/// A cel coordinate: the layer offset plus the history's minimum bound,
/// clamped to the `i16` range.
pub fn cel_coordinate(offset: i32, min: i32) -> (r: i16)
    requires
        i32::MIN <= offset + min <= i32::MAX,
    ensures
        r == clamp(offset + min, i16::MIN as int, i16::MAX as int),
{
    let v = offset + min;
    if v < -32768 {
        -32768
    } else if v > 32767 {
        32767
    } else {
        v as i16
    }
}

/// The step of a layer whose history is its source image alone: a
/// `width` × `height` transparent image onto which the source is copied so
/// that its position (x, y) lands at (x - `min_x`, y - `min_y`), and whether
/// any source pixel landed in the image.
pub fn source_step(width: u32, height: u32, source: &PixelBuffer, min_x: i32, min_y: i32) -> (r: (
    PixelBuffer,
    bool,
))
    requires
        width as int * height as int <= usize::MAX,
        source.wf(),
        source.width <= i32::MAX,
        source.height <= i32::MAX,
        min_x > i32::MIN,
        min_y > i32::MIN,
        source.width - min_x <= i32::MAX + 1,
        source.height - min_y <= i32::MAX + 1,
    ensures
        r.0.wf(),
        r.0.width == width,
        r.0.height == height,
        forall|x: int, y: int| r.0.contains(x, y) ==> #[trigger] r.0.pixel(x, y) == (if source.contains(
            x + min_x,
            y + min_y,
        ) {
            source.pixel(x + min_x, y + min_y)
        } else {
            transparent()
        }),
        r.1 == (span_hits(-min_x, source.width as int, width as int) && span_hits(
            -min_y,
            source.height as int,
            height as int,
        )),
{
    let mut canvas = PixelBuffer::new(width, height);
    let ghost blank = canvas;
    let drew = blit(&mut canvas, source, -min_x, -min_y);
    proof {
        assert forall|x: int, y: int| canvas.contains(x, y) implies #[trigger] canvas.pixel(x, y) == (
        if source.contains(x + min_x, y + min_y) {
            source.pixel(x + min_x, y + min_y)
        } else {
            transparent()
        }) by {
            lemma_index_in_bounds(width as int, height as int, x, y);
            assert(blank.pixel(x, y) == transparent());
        }
    }
    (canvas, drew)
}

/// The image a layer shows at present, and where.
#[derive(Debug, Clone, Copy, PartialEq, Eq, Structural)]
pub struct LatestCel {
    pub image_index: usize,
    pub x: i16,
    pub y: i16,
}

/// The cels of frame `frame` for the layers `0..n`: one per layer that has
/// drawn, showing its latest image, in layer order.
pub open spec fn frame_cels(latest: Seq<Option<LatestCel>>, frame: int, n: int) -> Seq<canvas::Cel>
    decreases n,
{
    if n <= 0 {
        seq![]
    } else {
        frame_cels(latest, frame, n - 1) + match latest[n - 1] {
            Some(c) => seq![canvas::Cel {
                frame_index: frame as usize,
                layer_index: (n - 1) as usize,
                x: c.x,
                y: c.y,
                image_index: c.image_index,
            }],
            None => seq![],
        }
    }
}

/// The cels of a timelapse frame: each lies in that frame, on a layer below
/// `n` that has drawn, and shows that layer's latest image; the layers come
/// in increasing order, so no layer has two; and every layer below `n` that
/// has drawn has one.
pub proof fn lemma_frame_cels(latest: Seq<Option<LatestCel>>, frame: int, n: int)
    requires
        0 <= n <= latest.len(),
        latest.len() <= usize::MAX,
        0 <= frame <= usize::MAX,
    ensures
        forall|i: int| 0 <= i < frame_cels(latest, frame, n).len() ==> {
            let c = #[trigger] frame_cels(latest, frame, n)[i];
            &&& c.frame_index == frame
            &&& c.layer_index < n
            &&& latest[c.layer_index as int] == Some(LatestCel { image_index: c.image_index, x: c.x, y: c.y })
        },
        forall|i: int, k: int|
            0 <= i < k < frame_cels(latest, frame, n).len() ==> (#[trigger] frame_cels(latest, frame, n)[i]).layer_index
                < (#[trigger] frame_cels(latest, frame, n)[k]).layer_index,
        forall|j: int| 0 <= j < n && (#[trigger] latest[j]) is Some ==> frame_cels(latest, frame, n).contains(
            canvas::Cel {
                frame_index: frame as usize,
                layer_index: j as usize,
                x: latest[j]->0.x,
                y: latest[j]->0.y,
                image_index: latest[j]->0.image_index,
            },
        ),
    decreases n,
{
    if n > 0 {
        lemma_frame_cels(latest, frame, n - 1);
        let prev = frame_cels(latest, frame, n - 1);
        let all = frame_cels(latest, frame, n);
        assert forall|i: int| 0 <= i < all.len() implies {
            let c = #[trigger] all[i];
            &&& c.frame_index == frame
            &&& c.layer_index < n
            &&& latest[c.layer_index as int] == Some(LatestCel { image_index: c.image_index, x: c.x, y: c.y })
        } by {
            if i < prev.len() {
                assert(all[i] == prev[i]);
            }
        }
        assert forall|i: int, k: int| 0 <= i < k < all.len() implies (#[trigger] all[i]).layer_index
            < (#[trigger] all[k]).layer_index by {
            assert(all[i] == prev[i]);
            if k < prev.len() {
                assert(all[k] == prev[k]);
            }
        }
        assert forall|j: int| 0 <= j < n && (#[trigger] latest[j]) is Some implies all.contains(
            canvas::Cel {
                frame_index: frame as usize,
                layer_index: j as usize,
                x: latest[j]->0.x,
                y: latest[j]->0.y,
                image_index: latest[j]->0.image_index,
            },
        ) by {
            if j < n - 1 {
                let c = canvas::Cel {
                    frame_index: frame as usize,
                    layer_index: j as usize,
                    x: latest[j]->0.x,
                    y: latest[j]->0.y,
                    image_index: latest[j]->0.image_index,
                };
                assert(prev.contains(c));
                let k = choose|k: int| 0 <= k < prev.len() && prev[k] == c;
                assert(all[k] == prev[k]);
            } else {
                assert(all[prev.len() as int] == canvas::Cel {
                    frame_index: frame as usize,
                    layer_index: j as usize,
                    x: latest[j]->0.x,
                    y: latest[j]->0.y,
                    image_index: latest[j]->0.image_index,
                });
            }
        }
    }
}

/// Previously drawn layers stay visible: in the frame a step adds, the layer
/// that stepped shows its new image, and every other layer that had drawn
/// before shows its latest image.
pub proof fn lemma_step_shows_drawn_layers(
    latest: Seq<Option<LatestCel>>,
    layer: int,
    step: LatestCel,
    frame: int,
    j: int,
)
    requires
        latest.len() <= usize::MAX,
        0 <= frame <= usize::MAX,
        0 <= layer < latest.len(),
        0 <= j < latest.len(),
        j == layer || latest[j] is Some,
    ensures
        ({
            let now = latest.update(layer, Some(step));
            let shown = if j == layer { step } else { latest[j]->0 };
            frame_cels(now, frame, now.len() as int).contains(
                canvas::Cel {
                    frame_index: frame as usize,
                    layer_index: j as usize,
                    x: shown.x,
                    y: shown.y,
                    image_index: shown.image_index,
                },
            )
        }),
{
    let now = latest.update(layer, Some(step));
    lemma_frame_cels(now, frame, now.len() as int);
    assert(now[j] is Some);
}

/// An image as a timelapse step produces it: between 1 and `MAX_EXTENT`
/// pixels wide and high, with four RGBA bytes per pixel.
pub open spec fn image_shaped(img: canvas::Image) -> bool {
    &&& 1 <= img.width <= MAX_EXTENT
    &&& 1 <= img.height <= MAX_EXTENT
    &&& img.rgba@.len() == 4 * (img.width as int * img.height as int)
}

/// Cel `c` shows, in its frame, the latest image its layer had drawn by then,
/// at the place that image was drawn. `owners[k]` is the layer that drew
/// image `k` (image `k` is the image of frame `k`), `positions[k]` its place.
pub open spec fn shows_latest(owners: Seq<int>, positions: Seq<(i16, i16)>, c: canvas::Cel) -> bool {
    &&& c.image_index <= c.frame_index
    &&& c.frame_index < owners.len()
    &&& owners[c.image_index as int] == c.layer_index
    &&& positions[c.image_index as int] == (c.x, c.y)
    &&& forall|k: int| c.image_index < k <= c.frame_index ==> #[trigger] owners[k] != c.layer_index
}

/// Cel `a` comes before cel `b`: an earlier frame, or the same frame and a
/// lower layer.
pub open spec fn cel_precedes(a: canvas::Cel, b: canvas::Cel) -> bool {
    a.frame_index < b.frame_index || (a.frame_index == b.frame_index && a.layer_index < b.layer_index)
}

/// Some cel shows layer `j` in frame `f`.
pub open spec fn shown(cels: Seq<canvas::Cel>, f: int, j: int) -> bool {
    exists|i: int| 0 <= i < cels.len() && (#[trigger] cels[i]).frame_index == f && cels[i].layer_index == j
}

/// What the latest entry `e` of layer `j` says, given who drew each image so
/// far: the layer's last image and its place, or, when absent, that the layer
/// has drawn nothing.
pub open spec fn latest_entry_ok(owners: Seq<int>, positions: Seq<(i16, i16)>, j: int, e: Option<LatestCel>) -> bool {
    match e {
        Some(c) => {
            &&& c.image_index < owners.len()
            &&& owners[c.image_index as int] == j
            &&& positions[c.image_index as int] == (c.x, c.y)
            &&& forall|k: int| c.image_index < k < owners.len() ==> #[trigger] owners[k] != j
        },
        None => forall|k: int| 0 <= k < owners.len() ==> #[trigger] owners[k] != j,
    }
}

/// The cels of a timelapse whose steps were drawn by `owners` at
/// `positions`, over layers `0..n`: each is on a layer and shows that layer's
/// latest image of its frame; they are ordered by frame, then layer; and every
/// frame shows every layer that had drawn by then.
pub open spec fn timelapse_cels_ok(owners: Seq<int>, positions: Seq<(i16, i16)>, n: int, cels: Seq<canvas::Cel>) -> bool {
    &&& forall|i: int| 0 <= i < cels.len() ==> {
        let c = #[trigger] cels[i];
        &&& c.layer_index < n
        &&& shows_latest(owners, positions, c)
    }
    &&& forall|i: int, i2: int| 0 <= i < i2 < cels.len() ==> cel_precedes(#[trigger] cels[i], #[trigger] cels[i2])
    &&& forall|f: int, k: int| 0 <= k <= f < owners.len() ==> #[trigger] shown(cels, f, owners[k])
}

proof fn lemma_same_place_same_cel(owners: Seq<int>, positions: Seq<(i16, i16)>, c: canvas::Cel, d: canvas::Cel)
    requires
        shows_latest(owners, positions, c),
        shows_latest(owners, positions, d),
        c.frame_index == d.frame_index,
        c.layer_index == d.layer_index,
    ensures
        c == d,
{
    if c.image_index < d.image_index {
        assert(owners[d.image_index as int] == d.layer_index);
    } else if d.image_index < c.image_index {
        assert(owners[c.image_index as int] == c.layer_index);
    }
}

proof fn lemma_ordered_same_members(a: Seq<canvas::Cel>, b: Seq<canvas::Cel>)
    requires
        forall|i: int, i2: int| 0 <= i < i2 < a.len() ==> cel_precedes(#[trigger] a[i], #[trigger] a[i2]),
        forall|i: int, i2: int| 0 <= i < i2 < b.len() ==> cel_precedes(#[trigger] b[i], #[trigger] b[i2]),
        forall|i: int| 0 <= i < a.len() ==> b.contains(#[trigger] a[i]),
        forall|i: int| 0 <= i < b.len() ==> a.contains(#[trigger] b[i]),
    ensures
        a == b,
    decreases a.len(),
{
    if a.len() == 0 {
        if b.len() > 0 {
            assert(a.contains(b[0]));
        }
        assert(a =~= b);
    } else {
        assert(b.contains(a[0]));
        let p = choose|p: int| 0 <= p < b.len() && b[p] == a[0];
        assert(a.contains(b[0]));
        let q = choose|q: int| 0 <= q < a.len() && a[q] == b[0];
        if p > 0 {
            assert(cel_precedes(b[0], b[p]));
            if q > 0 {
                assert(cel_precedes(a[0], a[q]));
            }
            assert(false);
        }
        let a1 = a.drop_first();
        let b1 = b.drop_first();
        assert forall|i: int| 0 <= i < a1.len() implies b1.contains(#[trigger] a1[i]) by {
            assert(a1[i] == a[i + 1]);
            assert(cel_precedes(a[0], a[i + 1]));
            assert(b.contains(a[i + 1]));
            let r = choose|r: int| 0 <= r < b.len() && b[r] == a[i + 1];
            assert(r != 0);
            assert(b1[r - 1] == a1[i]);
        }
        assert forall|i: int| 0 <= i < b1.len() implies a1.contains(#[trigger] b1[i]) by {
            assert(b1[i] == b[i + 1]);
            assert(cel_precedes(b[0], b[i + 1]));
            assert(a.contains(b[i + 1]));
            let r = choose|r: int| 0 <= r < a.len() && a[r] == b[i + 1];
            assert(r != 0);
            assert(a1[r - 1] == b1[i]);
        }
        assert forall|i: int, i2: int| 0 <= i < i2 < a1.len() implies cel_precedes(#[trigger] a1[i], #[trigger] a1[i2]) by {
            assert(a1[i] == a[i + 1] && a1[i2] == a[i2 + 1]);
        }
        assert forall|i: int, i2: int| 0 <= i < i2 < b1.len() implies cel_precedes(#[trigger] b1[i], #[trigger] b1[i2]) by {
            assert(b1[i] == b[i + 1] && b1[i2] == b[i2 + 1]);
        }
        lemma_ordered_same_members(a1, b1);
        assert(a =~= b) by {
            assert forall|i: int| 0 <= i < a.len() implies a[i] == b[i] by {
                if i > 0 {
                    assert(a[i] == a1[i - 1]);
                    assert(b[i] == b1[i - 1]);
                }
            }
        }
    }
}

/// The cels of a timelapse are determined by its steps: two cel sequences
/// that both meet `timelapse_cels_ok` for the same steps are equal. So a
/// timelapse depends on nothing but its steps' layers, places and images.
pub proof fn lemma_timelapse_cels_determined(
    owners: Seq<int>,
    positions: Seq<(i16, i16)>,
    n: int,
    a: Seq<canvas::Cel>,
    b: Seq<canvas::Cel>,
)
    requires
        timelapse_cels_ok(owners, positions, n, a),
        timelapse_cels_ok(owners, positions, n, b),
    ensures
        a == b,
{
    assert forall|i: int| 0 <= i < a.len() implies b.contains(#[trigger] a[i]) by {
        let c = a[i];
        assert(shows_latest(owners, positions, c));
        assert(shown(b, c.frame_index as int, owners[c.image_index as int]));
        let j = choose|j: int|
            0 <= j < b.len() && (#[trigger] b[j]).frame_index == c.frame_index && b[j].layer_index == owners[c.image_index as int];
        lemma_same_place_same_cel(owners, positions, c, b[j]);
    }
    assert forall|i: int| 0 <= i < b.len() implies a.contains(#[trigger] b[i]) by {
        let c = b[i];
        assert(shows_latest(owners, positions, c));
        assert(shown(a, c.frame_index as int, owners[c.image_index as int]));
        let j = choose|j: int|
            0 <= j < a.len() && (#[trigger] a[j]).frame_index == c.frame_index && a[j].layer_index == owners[c.image_index as int];
        lemma_same_place_same_cel(owners, positions, c, a[j]);
    }
    lemma_ordered_same_members(a, b);
}

/// The timelapse assembled so far.
pub struct TimelapseBuilder {
    layers: Vec<canvas::Layer>,
    frames: Vec<canvas::Frame>,
    cels: Vec<canvas::Cel>,
    images: Vec<canvas::Image>,
    latest: Vec<Option<LatestCel>>,
    owners: Ghost<Seq<int>>,
    positions: Ghost<Seq<(i16, i16)>>,
}

impl TimelapseBuilder {
    /// The output layers.
    pub closed spec fn layers(&self) -> Seq<canvas::Layer> {
        self.layers@
    }

    /// The frames so far.
    pub closed spec fn frames(&self) -> Seq<canvas::Frame> {
        self.frames@
    }

    /// The cels so far.
    pub closed spec fn cels(&self) -> Seq<canvas::Cel> {
        self.cels@
    }

    /// The images so far, one per frame.
    pub closed spec fn images(&self) -> Seq<canvas::Image> {
        self.images@
    }

    /// For each layer, the image it shows at present, if it has drawn.
    pub closed spec fn latest(&self) -> Seq<Option<LatestCel>> {
        self.latest@
    }

    /// For each step so far, the layer that stepped.
    pub closed spec fn step_layers(&self) -> Seq<int> {
        self.owners@
    }

    /// For each step so far, where its image was placed.
    pub closed spec fn step_positions(&self) -> Seq<(i16, i16)> {
        self.positions@
    }

    /// One latest entry per layer and one image, step layer and place per
    /// frame; frames last `TIMELAPSE_FRAME_MS`; images are shaped as steps
    /// produce them; latest entries name each layer's last image; every cel
    /// shows its layer's latest image of its frame; cels are ordered by frame
    /// then layer; and every frame shows every layer that had drawn by then.
    pub closed spec fn wf(&self) -> bool {
        let n = self.layers@.len();
        let owners = self.owners@;
        let positions = self.positions@;
        &&& self.latest@.len() == n
        &&& self.frames@.len() == self.images@.len()
        &&& owners.len() == self.images@.len()
        &&& positions.len() == self.images@.len()
        &&& forall|f: int| 0 <= f < self.frames@.len() ==> #[trigger] self.frames@[f] == canvas::Frame {
            duration_ms: TIMELAPSE_FRAME_MS,
        }
        &&& forall|k: int| 0 <= k < self.images@.len() ==> image_shaped(#[trigger] self.images@[k])
        &&& forall|k: int| 0 <= k < owners.len() ==> 0 <= #[trigger] owners[k] < n
        &&& forall|j: int| 0 <= j < n ==> latest_entry_ok(owners, positions, j, #[trigger] self.latest@[j])
        &&& forall|i: int| 0 <= i < self.cels@.len() ==> {
            let c = #[trigger] self.cels@[i];
            &&& c.layer_index < n
            &&& shows_latest(owners, positions, c)
        }
        &&& forall|i: int, i2: int| 0 <= i < i2 < self.cels@.len() ==> cel_precedes(
            #[trigger] self.cels@[i],
            #[trigger] self.cels@[i2],
        )
        &&& forall|f: int, k: int| 0 <= k <= f < self.frames@.len() ==> #[trigger] shown(self.cels@, f, owners[k])
    }

    /// What well-formedness guarantees of a timelapse, stated over its views.
    pub proof fn lemma_wf(&self)
        requires
            self.wf(),
        ensures
            self.latest().len() == self.layers().len(),
            self.frames().len() == self.images().len(),
            self.step_layers().len() == self.images().len(),
            self.step_positions().len() == self.images().len(),
            forall|f: int| 0 <= f < self.frames().len() ==> #[trigger] self.frames()[f] == (canvas::Frame {
                duration_ms: TIMELAPSE_FRAME_MS,
            }),
            forall|k: int| 0 <= k < self.images().len() ==> image_shaped(#[trigger] self.images()[k]),
            forall|k: int| 0 <= k < self.step_layers().len() ==> 0 <= #[trigger] self.step_layers()[k]
                < self.layers().len(),
            forall|j: int| 0 <= j < self.latest().len() ==> latest_entry_ok(
                self.step_layers(),
                self.step_positions(),
                j,
                #[trigger] self.latest()[j],
            ),
            timelapse_cels_ok(self.step_layers(), self.step_positions(), self.layers().len() as int, self.cels()),
    {
    }

    /// An empty timelapse with the given output layers.
    pub fn new(layers: Vec<canvas::Layer>) -> (b: TimelapseBuilder)
        ensures
            b.wf(),
            b.layers() == layers@,
            b.frames().len() == 0,
            b.cels().len() == 0,
            b.images().len() == 0,
            b.step_layers().len() == 0,
            b.step_positions().len() == 0,
            b.latest() == Seq::new(layers@.len(), |j: int| None::<LatestCel>),
    {
        let mut latest: Vec<Option<LatestCel>> = Vec::new();
        let mut j: usize = 0;
        while j < layers.len()
            invariant
                j <= layers.len(),
                latest@ == Seq::new(j as nat, |k: int| None::<LatestCel>),
            decreases layers.len() - j,
        {
            latest.push(None);
            assert(latest@ =~= Seq::new((j + 1) as nat, |k: int| None::<LatestCel>));
            j = j + 1;
        }
        TimelapseBuilder {
            layers,
            frames: Vec::new(),
            cels: Vec::new(),
            images: Vec::new(),
            latest,
            owners: Ghost(Seq::empty()),
            positions: Ghost(Seq::empty()),
        }
    }

    /// The number of frames so far.
    pub fn frame_count(&self) -> (n: usize)
        ensures
            n == self.frames().len(),
    {
        self.frames.len()
    }

    /// The number of output layers.
    pub fn layer_count(&self) -> (n: usize)
        ensures
            n == self.layers().len(),
    {
        self.layers.len()
    }

    /// Records a step in which layer `layer` changed to `image`, placed at
    /// (`x`, `y`): a new frame of `TIMELAPSE_FRAME_MS` with that image, the
    /// layer now shows it, and the new frame has a cel for every layer that has
    /// drawn so far, showing its latest image.
    pub fn record_step(self, layer: usize, image: canvas::Image, x: i16, y: i16) -> (b: TimelapseBuilder)
        requires
            self.wf(),
            layer < self.layers().len(),
            image_shaped(image),
        ensures
            b.wf(),
            b.layers() == self.layers(),
            b.frames() == self.frames().push(canvas::Frame { duration_ms: TIMELAPSE_FRAME_MS }),
            b.images() == self.images().push(image),
            b.step_layers() == self.step_layers().push(layer as int),
            b.step_positions() == self.step_positions().push((x, y)),
            b.latest() == self.latest().update(
                layer as int,
                Some(LatestCel { image_index: self.images().len() as usize, x, y }),
            ),
            b.cels() == self.cels() + frame_cels(b.latest(), self.frames().len() as int, b.latest().len() as int),
    {
        let ghost old_owners = self.owners@;
        let ghost old_positions = self.positions@;
        let ghost old_latest = self.latest@;
        let ghost old_cels = self.cels@;
        let TimelapseBuilder { layers, mut frames, mut cels, mut images, mut latest, owners, positions } = self;
        let frame_index = frames.len();
        let image_index = images.len();
        frames.push(canvas::Frame { duration_ms: TIMELAPSE_FRAME_MS });
        images.push(image);
        latest.set(layer, Some(LatestCel { image_index, x, y }));
        let ghost owners2 = old_owners.push(layer as int);
        let ghost positions2 = old_positions.push((x, y));
        let ghost n = layers@.len();
        let mut j: usize = 0;
        while j < latest.len()
            invariant
                j <= latest@.len(),
                latest@.len() == n,
                cels@ == old_cels + frame_cels(latest@, frame_index as int, j as int),
            decreases latest@.len() - j,
        {
            match latest[j] {
                Some(c) => {
                    cels.push(canvas::Cel { frame_index, layer_index: j, x: c.x, y: c.y, image_index: c.image_index });
                },
                None => {},
            }
            assert(cels@ =~= old_cels + frame_cels(latest@, frame_index as int, j + 1));
            j = j + 1;
        }
        let ghost added = frame_cels(latest@, frame_index as int, n as int);
        proof {
            assert(layers@.len() == layers.len());
            lemma_frame_cels(latest@, frame_index as int, n as int);
            // Latest entries after the step.
            assert forall|j2: int| 0 <= j2 < n implies latest_entry_ok(owners2, positions2, j2, #[trigger] latest@[j2]) by {
                assert(latest_entry_ok(old_owners, old_positions, j2, old_latest[j2]));
                if j2 != layer {
                    match old_latest[j2] {
                        Some(c) => {
                            assert forall|k: int| c.image_index < k < owners2.len() implies #[trigger] owners2[k] != j2 by {
                                if k < old_owners.len() {
                                    assert(owners2[k] == old_owners[k]);
                                }
                            }
                        },
                        None => {
                            assert forall|k: int| 0 <= k < owners2.len() implies #[trigger] owners2[k] != j2 by {
                                if k < old_owners.len() {
                                    assert(owners2[k] == old_owners[k]);
                                }
                            }
                        },
                    }
                }
            }
            // Old cels still show their latest images; new cels do too.
            assert forall|i: int| 0 <= i < cels@.len() implies {
                let c = #[trigger] cels@[i];
                &&& c.layer_index < n
                &&& shows_latest(owners2, positions2, c)
            } by {
                if i < old_cels.len() {
                    let c = cels@[i];
                    assert(c == old_cels[i]);
                    assert(shows_latest(old_owners, old_positions, c));
                    assert forall|k: int| c.image_index < k <= c.frame_index implies #[trigger] owners2[k]
                        != c.layer_index by {
                        assert(owners2[k] == old_owners[k]);
                    }
                } else {
                    let c = cels@[i];
                    assert(c == added[i - old_cels.len()]);
                    let e = latest@[c.layer_index as int];
                    assert(latest_entry_ok(owners2, positions2, c.layer_index as int, e));
                }
            }
            assert forall|i: int, i2: int| 0 <= i < i2 < cels@.len() implies cel_precedes(
                #[trigger] cels@[i],
                #[trigger] cels@[i2],
            ) by {
                if i2 < old_cels.len() {
                    assert(cels@[i] == old_cels[i]);
                    assert(cels@[i2] == old_cels[i2]);
                } else if i < old_cels.len() {
                    assert(cels@[i] == old_cels[i]);
                    assert(shows_latest(old_owners, old_positions, old_cels[i]));
                    assert(cels@[i2] == added[i2 - old_cels.len()]);
                } else {
                    assert(cels@[i] == added[i - old_cels.len()]);
                    assert(cels@[i2] == added[i2 - old_cels.len()]);
                }
            }
            assert forall|f: int, k: int| 0 <= k <= f < frames@.len() implies #[trigger] shown(cels@, f, owners2[k]) by {
                if f < old_owners.len() {
                    assert(owners2[k] == old_owners[k]);
                    assert(shown(old_cels, f, old_owners[k]));
                    let i = choose|i: int|
                        0 <= i < old_cels.len() && (#[trigger] old_cels[i]).frame_index == f && old_cels[i].layer_index
                            == old_owners[k];
                    assert(cels@[i] == old_cels[i]);
                } else {
                    let j2 = owners2[k];
                    assert(0 <= j2 < n);
                    if j2 != layer {
                        assert(owners2[k] == old_owners[k]);
                        assert(latest_entry_ok(old_owners, old_positions, j2, old_latest[j2]));
                        assert(old_latest[j2] is Some);
                    }
                    assert(latest@[j2] is Some);
                    let e = latest@[j2]->0;
                    let want = canvas::Cel {
                        frame_index: frame_index,
                        layer_index: j2 as usize,
                        x: e.x,
                        y: e.y,
                        image_index: e.image_index,
                    };
                    assert(added.contains(want));
                    let a = choose|a: int| 0 <= a < added.len() && added[a] == want;
                    assert(cels@[old_cels.len() + a] == want);
                }
            }
        }
        TimelapseBuilder {
            layers,
            frames,
            cels,
            images,
            latest,
            owners: Ghost(owners2),
            positions: Ghost(positions2),
        }
    }

    /// The finished document, `width` × `height`.
    pub fn finish(self, width: u16, height: u16) -> (d: canvas::Document)
        ensures
            d.width == width,
            d.height == height,
            d.layers@ == self.layers(),
            d.frames@ == self.frames(),
            d.cels@ == self.cels(),
            d.images@ == self.images(),
    {
        let TimelapseBuilder { layers, frames, cels, images, latest: _, owners: _, positions: _ } = self;
        canvas::Document { width, height, layers, frames, cels, images }
    }
}

/// The steps of one layer: the images its replay produced, in order, all
/// placed at (`x`, `y`).
pub struct LayerRun {
    pub x: i16,
    pub y: i16,
    /// The size every image of the run has.
    pub width: u16,
    pub height: u16,
    pub images: Vec<canvas::Image>,
}

/// What replaying one action of a layer's history gave: the action's group,
/// whether the replay reported drawing, and the layer image after it (taken
/// whenever the action yields a frame).
pub struct ActionOutcome {
    pub kind: ActionKind,
    pub drew: bool,
    pub image: Option<canvas::Image>,
}

/// The step images of a replay: the images after the actions that yield a
/// frame, in order.
pub open spec fn yielded_images(outcomes: Seq<ActionOutcome>) -> Seq<canvas::Image>
    decreases outcomes.len(),
{
    if outcomes.len() == 0 {
        seq![]
    } else {
        let o = outcomes.last();
        yielded_images(outcomes.drop_last()) + if yields(o.kind, o.drew) {
            seq![o.image->0]
        } else {
            seq![]
        }
    }
}

/// Collects the step images of a replay: one per action that yields a frame
/// (`yields`), in order.
pub fn replayed_images(outcomes: Vec<ActionOutcome>) -> (images: Vec<canvas::Image>)
    requires
        forall|i: int| 0 <= i < outcomes@.len() && yields(#[trigger] outcomes@[i].kind, outcomes@[i].drew)
            ==> outcomes@[i].image is Some,
    ensures
        images@ == yielded_images(outcomes@),
{
    let ghost all = outcomes@;
    let mut images: Vec<canvas::Image> = Vec::new();
    for o in it: outcomes.into_iter()
        invariant
            it.seq() == all,
            forall|i: int| 0 <= i < all.len() && yields(#[trigger] all[i].kind, all[i].drew) ==> all[i].image is Some,
            images@ == yielded_images(all.take(it.index() as int)),
    {
        let ghost t = it.index();
        proof {
            assert(all[t as int] == o);
            assert(all.take(t + 1).drop_last() =~= all.take(t as int));
        }
        if yields_frame(o.kind, o.drew) {
            match o.image {
                Some(img) => images.push(img),
                None => {},
            }
        }
        proof {
            assert(images@ =~= yielded_images(all.take(t + 1)));
        }
    }
    proof {
        assert(all.take(all.len() as int) =~= all);
    }
    images
}

/// The run of a layer whose replay gave `images`, all `width` × `height`:
/// placed at the layer offset plus the history's minimum bounds (clamped, see
/// `cel_coordinate`) when it drew anything; a run without images has no
/// place, and (0, 0) stands there.
pub fn layer_run(
    width: u16,
    height: u16,
    images: Vec<canvas::Image>,
    offset_x: i32,
    offset_y: i32,
    min_x: i32,
    min_y: i32,
) -> (run: LayerRun)
    requires
        images@.len() > 0 ==> i32::MIN <= offset_x + min_x <= i32::MAX,
        images@.len() > 0 ==> i32::MIN <= offset_y + min_y <= i32::MAX,
    ensures
        run.width == width,
        run.height == height,
        run.images@ == images@,
        images@.len() > 0 ==> run.x == clamp(offset_x + min_x, i16::MIN as int, i16::MAX as int),
        images@.len() > 0 ==> run.y == clamp(offset_y + min_y, i16::MIN as int, i16::MAX as int),
        images@.len() == 0 ==> run.x == 0 && run.y == 0,
{
    if images.len() == 0 {
        LayerRun { x: 0, y: 0, width, height, images }
    } else {
        let x = cel_coordinate(offset_x, min_x);
        let y = cel_coordinate(offset_y, min_y);
        LayerRun { x, y, width, height, images }
    }
}

/// For each step of a whole timelapse, the layer that stepped: the layers
/// in order, each once per image of its run.
pub open spec fn run_owners(runs: Seq<LayerRun>) -> Seq<int>
    decreases runs.len(),
{
    if runs.len() == 0 {
        seq![]
    } else {
        run_owners(runs.drop_last()) + Seq::new(runs.last().images@.len(), |i: int| runs.len() - 1)
    }
}

/// The images of a whole timelapse: the runs' images, run after run.
pub open spec fn run_images(runs: Seq<LayerRun>) -> Seq<canvas::Image>
    decreases runs.len(),
{
    if runs.len() == 0 {
        seq![]
    } else {
        run_images(runs.drop_last()) + runs.last().images@
    }
}

/// For each step of a whole timelapse, where its image goes: its layer's
/// place.
pub open spec fn run_positions(runs: Seq<LayerRun>) -> Seq<(i16, i16)> {
    Seq::new(
        run_owners(runs).len(),
        |k: int| (runs[run_owners(runs)[k]].x, runs[run_owners(runs)[k]].y),
    )
}

/// The steps of a whole timelapse take the layers in order: the stepping
/// layers never decrease, each is a layer of the runs, and there is one per
/// image.
pub proof fn lemma_run_owners(runs: Seq<LayerRun>)
    ensures
        run_owners(runs).len() == run_images(runs).len(),
        forall|k: int| 0 <= k < run_owners(runs).len() ==> 0 <= #[trigger] run_owners(runs)[k] < runs.len(),
        forall|i: int, k: int|
            0 <= i < k < run_owners(runs).len() ==> #[trigger] run_owners(runs)[i] <= #[trigger] run_owners(
                runs,
            )[k],
    decreases runs.len(),
{
    if runs.len() > 0 {
        let rest = runs.drop_last();
        lemma_run_owners(rest);
        let prev = run_owners(rest);
        let all = run_owners(runs);
        let cur = Seq::new(runs.last().images@.len(), |i: int| runs.len() - 1);
        assert(all == prev + cur);
        assert forall|k: int| 0 <= k < all.len() implies 0 <= #[trigger] all[k] < runs.len() by {
            if k < prev.len() {
                assert(all[k] == prev[k]);
            }
        }
        assert forall|i: int, k: int| 0 <= i < k < all.len() implies #[trigger] all[i] <= #[trigger] all[k] by {
            if k < prev.len() {
                assert(all[i] == prev[i]);
                assert(all[k] == prev[k]);
            } else if i < prev.len() {
                assert(all[i] == prev[i]);
            }
        }
    }
}

/// Whether `img` is shaped as a timelapse step image.
pub fn is_step_image(img: &canvas::Image) -> (r: bool)
    ensures
        r == image_shaped(*img),
{
    let w = img.width as usize;
    let h = img.height as usize;
    if img.width < 1 || img.width > 4096 || img.height < 1 || img.height > 4096 {
        return false;
    }
    proof {
        assert(w * h <= 4096 * 4096) by (nonlinear_arith)
            requires
                w <= 4096,
                h <= 4096,
        ;
    }
    img.rgba.len() == 4 * (w * h)
}

/// The whole timelapse: the runs' steps, layer by layer and within a layer in
/// order, each a frame of `TIMELAPSE_FRAME_MS` with its image, and in every
/// frame a cel for each layer that has drawn by then, showing that layer's
/// latest image at the layer's place; cels are ordered by frame, then layer
/// (which, by `lemma_timelapse_cels_determined`, fixes them).
pub fn assemble_timelapse(width: u16, height: u16, layers: Vec<canvas::Layer>, runs: Vec<LayerRun>) -> (d:
    canvas::Document)
    requires
        runs@.len() == layers@.len(),
        forall|j: int, i: int|
            0 <= j < runs@.len() && 0 <= i < runs@[j].images@.len() ==> image_shaped(
                #[trigger] runs@[j].images@[i],
            ),
        forall|j: int, i: int|
            0 <= j < runs@.len() && 0 <= i < runs@[j].images@.len() ==> (#[trigger] runs@[j].images@[i]).width
                == runs@[j].width && runs@[j].images@[i].height == runs@[j].height,
    ensures
        d.width == width,
        d.height == height,
        d.layers@ == layers@,
        d.images@ == run_images(runs@),
        d.frames@ == Seq::new(
            run_images(runs@).len(),
            |f: int| (canvas::Frame { duration_ms: TIMELAPSE_FRAME_MS }),
        ),
        timelapse_cels_ok(run_owners(runs@), run_positions(runs@), layers@.len() as int, d.cels@),
        forall|k: int| 0 <= k < d.images@.len() ==> (#[trigger] d.images@[k]).width == runs@[run_owners(
            runs@,
        )[k]].width && d.images@[k].height == runs@[run_owners(runs@)[k]].height,
{
    let ghost all = runs@;
    let ghost n = layers@.len();
    let ghost layer_view = layers@;
    assert(layers@.len() == layers.len());
    let mut b = TimelapseBuilder::new(layers);
    let mut layer: usize = 0;
    for run in it: runs.into_iter()
        invariant
            it.seq() == all,
            layer == it.index(),
            n == all.len(),
            n <= usize::MAX,
            layer <= n,
            forall|j: int, i: int|
                0 <= j < all.len() && 0 <= i < all[j].images@.len() ==> image_shaped(#[trigger] all[j].images@[i]),
            b.wf(),
            b.layers() == layer_view,
            b.layers().len() == n,
            forall|j: int, i: int|
                0 <= j < all.len() && 0 <= i < all[j].images@.len() ==> (#[trigger] all[j].images@[i]).width
                    == all[j].width && all[j].images@[i].height == all[j].height,
            forall|k: int| 0 <= k < b.step_layers().len() ==> (#[trigger] b.images()[k]).width
                == all[b.step_layers()[k]].width && b.images()[k].height == all[b.step_layers()[k]].height,
            b.step_layers() == run_owners(all.take(layer as int)),
            b.images() == run_images(all.take(layer as int)),
            forall|k: int| 0 <= k < b.step_layers().len() ==> #[trigger] b.step_positions()[k] == (
            all[b.step_layers()[k]].x,
            all[b.step_layers()[k]].y,
            ),
    {
        proof {
            b.lemma_wf();
        }
        let x = run.x;
        let y = run.y;
        let ghost imgs = run.images@;
        let ghost base_owners = b.step_layers();
        let ghost base_images = b.images();
        for image in it2: run.images.into_iter()
            invariant
                it2.seq() == imgs,
                imgs == all[layer as int].images@,
                layer < n,
                n == all.len(),
                n <= usize::MAX,
                b.layers() == layer_view,
                x == all[layer as int].x,
                y == all[layer as int].y,
                forall|j: int, i: int|
                    0 <= j < all.len() && 0 <= i < all[j].images@.len() ==> image_shaped(
                        #[trigger] all[j].images@[i],
                    ),
                base_owners == run_owners(all.take(layer as int)),
                base_images == run_images(all.take(layer as int)),
                b.wf(),
                b.layers().len() == n,
                forall|j: int, i: int|
                    0 <= j < all.len() && 0 <= i < all[j].images@.len() ==> (#[trigger] all[j].images@[i]).width
                        == all[j].width && all[j].images@[i].height == all[j].height,
                forall|k: int| 0 <= k < b.step_layers().len() ==> (#[trigger] b.images()[k]).width
                    == all[b.step_layers()[k]].width && b.images()[k].height == all[b.step_layers()[k]].height,
                b.step_layers() == base_owners + Seq::new(it2.index() as nat, |i: int| layer as int),
                b.images() == base_images + imgs.take(it2.index() as int),
                forall|k: int| 0 <= k < b.step_layers().len() ==> #[trigger] b.step_positions()[k] == (
                all[b.step_layers()[k]].x,
                all[b.step_layers()[k]].y,
                ),
        {
            let ghost t = it2.index();
            proof {
                b.lemma_wf();
                assert(imgs[t] == image);
            }
            let ghost before = b.step_positions();
            let ghost before_owners = b.step_layers();
            let ghost before_images = b.images();
            b = b.record_step(layer, image, x, y);
            proof {
                assert(b.step_layers() =~= base_owners + Seq::new((t + 1) as nat, |i: int| layer as int));
                assert(imgs.take(t + 1) =~= imgs.take(t as int).push(imgs[t]));
                assert(b.images() =~= base_images + imgs.take(t + 1));
                assert forall|k: int| 0 <= k < b.step_layers().len() implies #[trigger] b.step_positions()[k] == (
                all[b.step_layers()[k]].x,
                all[b.step_layers()[k]].y,
                ) by {
                    if k < before_owners.len() {
                        assert(b.step_positions()[k] == before[k]);
                        assert(b.step_layers()[k] == before_owners[k]);
                    }
                }
                assert forall|k: int| 0 <= k < b.step_layers().len() implies (#[trigger] b.images()[k]).width
                    == all[b.step_layers()[k]].width && b.images()[k].height == all[b.step_layers()[k]].height by {
                    if k < before_owners.len() {
                        assert(b.images()[k] == before_images[k]);
                        assert(b.step_layers()[k] == before_owners[k]);
                    } else {
                        assert(b.images()[k] == all[layer as int].images@[t as int]);
                    }
                }
            }
        }
        proof {
            let taken = all.take(layer + 1);
            assert(taken.drop_last() =~= all.take(layer as int));
            assert(taken.last() == all[layer as int]);
            assert(imgs.take(imgs.len() as int) =~= imgs);
            assert(b.step_layers() =~= run_owners(taken));
            assert(b.images() =~= run_images(taken));
        }
        layer = layer + 1;
    }
    proof {
        b.lemma_wf();
        assert(all.take(layer as int) =~= all);
        assert(b.step_positions() =~= run_positions(all));
        assert(b.frames() =~= Seq::new(
            run_images(all).len(),
            |f: int| (canvas::Frame { duration_ms: TIMELAPSE_FRAME_MS }),
        ));
    }
    b.finish(width, height)
}

} // verus!
