//! Pixaki documents (the JSON `document.json` of version 3 and the property
//! list `DocumentInfo.plist` of version 2) and the conversion plans derived
//! from them: which layers and frames the output has, and which image goes on
//! which layer in which frame.
//!
//! Sizes, opacities and cel positions are stored as the integers the output
//! uses (the editor writes them as reals; the caller rounds them).

use vstd::prelude::*;
use crate::canvas;
use crate::canvas::{blend_mode_named, map_blend_mode, BlendMode};
use crate::text::{decimal, decimal_string};

verus! {

/// The display time of every frame the converter creates, in milliseconds.
pub const FRAME_DURATION_MS: u32 = 100;

// --- Version 3 (`document.json`) ---

/// A Pixaki v3 document.
#[derive(Debug)]
pub struct Document {
    pub sprites: Vec<Sprite>,
}

/// Canvas size in pixels.
#[derive(Clone, Copy, Debug)]
pub struct Size {
    pub width: u16,
    pub height: u16,
}

/// The main canvas: layers, the cels they show, and the number of frames.
#[derive(Debug)]
pub struct Sprite {
    pub layers: Vec<Layer>,
    pub cels: Vec<Cel>,
    pub size: Size,
    pub duration: u32,
}

/// A drawing surface that shows cels through its clips.
#[derive(Debug)]
pub struct Layer {
    pub name: String,
    pub is_visible: bool,
    /// Opacity on the 0..=255 scale.
    pub opacity: u8,
    pub blend_mode: Option<String>,
    pub clips: Vec<Clip>,
}

/// Shows the cel named `item_identifier` over `range`; a clip without a range
/// shows it in frame 0 only.
#[derive(Debug)]
pub struct Clip {
    pub item_identifier: String,
    pub range: Option<Range>,
}

/// The frames `start..=end`.
#[derive(Clone, Copy, Debug, PartialEq, Eq, Structural)]
pub struct Range {
    pub start: u32,
    pub end: u32,
}

/// A drawing stored as `<identifier>.png`; `origin` is the canvas position of
/// its top-left corner, absent when the document does not give one.
#[derive(Debug)]
pub struct Cel {
    pub identifier: String,
    pub origin: Option<(i16, i16)>,
}

/// Cel `cel_index` of the sprite goes on layer `layer_index` in frame
/// `frame_index`.
#[derive(Clone, Copy, Debug, PartialEq, Eq, Structural)]
pub struct Placement {
    pub frame_index: u32,
    pub layer_index: usize,
    pub cel_index: usize,
}

/// Whether `clip` shows its cel in frame `frame`.
pub open spec fn clip_covers(clip: Clip, frame: int) -> bool {
    match clip.range {
        Some(r) => r.start <= frame && frame <= r.end,
        None => frame == 0,
    }
}

/// A clip with a range shows its cel from its start frame to its end frame,
/// both included; a clip without a range shows it in frame 0 only.
pub proof fn lemma_clip_covers(clip: Clip, f: int)
    ensures
        clip.range matches Some(r) ==> (clip_covers(clip, f) <==> r.start <= f && f <= r.end),
        clip.range is None ==> (clip_covers(clip, f) <==> f == 0),
        clip.range matches Some(r) ==> (r.start <= r.end ==> clip_covers(clip, r.start as int) && clip_covers(
            clip,
            r.end as int,
        )),
{
}

/// The cel that the identifier `id` names: the last one in `cels` with that
/// identifier.
pub open spec fn cel_named(cels: Seq<Cel>, id: Seq<char>) -> Option<int>
    decreases cels.len(),
{
    if cels.len() == 0 {
        None
    } else if cels.last().identifier@ == id {
        Some(cels.len() - 1)
    } else {
        cel_named(cels.drop_last(), id)
    }
}

/// The placement that clip `c` of layer `l` yields in frame `f`, if any.
pub open spec fn clip_placement(s: Sprite, f: int, l: int, c: int) -> Seq<Placement> {
    let clip = s.layers@[l].clips@[c];
    if clip_covers(clip, f) && cel_named(s.cels@, clip.item_identifier@) is Some {
        seq![Placement {
            frame_index: f as u32,
            layer_index: l as usize,
            cel_index: cel_named(s.cels@, clip.item_identifier@)->0 as usize,
        }]
    } else {
        seq![]
    }
}

/// Placements of the first `n` clips of layer `l` in frame `f`.
pub open spec fn clips_placements(s: Sprite, f: int, l: int, n: int) -> Seq<Placement>
    decreases n,
{
    if n <= 0 {
        seq![]
    } else {
        clips_placements(s, f, l, n - 1) + clip_placement(s, f, l, n - 1)
    }
}

/// Placements of the first `n` layers in frame `f`.
pub open spec fn layers_placements(s: Sprite, f: int, n: int) -> Seq<Placement>
    decreases n,
{
    if n <= 0 {
        seq![]
    } else {
        layers_placements(s, f, n - 1) + clips_placements(s, f, n - 1, s.layers@[n - 1].clips@.len() as int)
    }
}

/// Placements of the first `n` frames.
pub open spec fn frames_placements(s: Sprite, n: int) -> Seq<Placement>
    decreases n,
{
    if n <= 0 {
        seq![]
    } else {
        frames_placements(s, n - 1) + layers_placements(s, n - 1, s.layers@.len() as int)
    }
}

/// All placements of a sprite: frame by frame, layer by layer, clip by clip.
pub open spec fn sprite_placements(s: Sprite) -> Seq<Placement> {
    frames_placements(s, s.duration as int)
}

fn find_cel(cels: &Vec<Cel>, id: &String) -> (r: Option<usize>)
    ensures
        match r {
            Some(i) => cel_named(cels@, id@) == Some(i as int),
            None => cel_named(cels@, id@) is None,
        },
{
    let mut i: usize = cels.len();
    assert(cels@.take(i as int) =~= cels@);
    while i > 0
        invariant
            i <= cels.len(),
            cel_named(cels@, id@) == cel_named(cels@.take(i as int), id@),
        decreases i,
    {
        let ghost prefix = cels@.take(i as int);
        assert(prefix.drop_last() =~= cels@.take(i - 1));
        if cels[i - 1].identifier == *id {
            return Some(i - 1);
        }
        i = i - 1;
    }
    None
}

/// Which cel goes on which layer in which frame: for each frame `0..duration`,
/// each layer in order and each of its clips in order, the cel that the clip
/// names whenever the clip covers the frame and a cel of that name exists.
pub fn cel_placements(sprite: &Sprite) -> (out: Vec<Placement>)
    ensures
        out@ == sprite_placements(*sprite),
{
    let mut out: Vec<Placement> = Vec::new();
    let mut f: u32 = 0;
    while f < sprite.duration
        invariant
            f <= sprite.duration,
            out@ == frames_placements(*sprite, f as int),
        decreases sprite.duration - f,
    {
        let mut l: usize = 0;
        while l < sprite.layers.len()
            invariant
                f < sprite.duration,
                l <= sprite.layers.len(),
                out@ == frames_placements(*sprite, f as int) + layers_placements(*sprite, f as int, l as int),
            decreases sprite.layers.len() - l,
        {
            let layer = &sprite.layers[l];
            let mut c: usize = 0;
            while c < layer.clips.len()
                invariant
                    f < sprite.duration,
                    l < sprite.layers.len(),
                    *layer == sprite.layers@[l as int],
                    c <= layer.clips.len(),
                    out@ == frames_placements(*sprite, f as int) + layers_placements(*sprite, f as int, l as int)
                        + clips_placements(*sprite, f as int, l as int, c as int),
                decreases layer.clips.len() - c,
            {
                let clip = &layer.clips[c];
                let covers = match clip.range {
                    Some(r) => r.start <= f && f <= r.end,
                    None => f == 0,
                };
                if covers {
                    match find_cel(&sprite.cels, &clip.item_identifier) {
                        Some(ci) => {
                            out.push(Placement { frame_index: f, layer_index: l, cel_index: ci });
                        },
                        None => {},
                    }
                }
                proof {
                    assert(clips_placements(*sprite, f as int, l as int, c + 1)
                        == clips_placements(*sprite, f as int, l as int, c as int)
                            + clip_placement(*sprite, f as int, l as int, c as int));
                }
                assert(out@ =~= frames_placements(*sprite, f as int) + layers_placements(*sprite, f as int, l as int)
                    + clips_placements(*sprite, f as int, l as int, c + 1));
                c = c + 1;
            }
            assert(out@ =~= frames_placements(*sprite, f as int) + layers_placements(*sprite, f as int, l + 1));
            l = l + 1;
        }
        assert(out@ =~= frames_placements(*sprite, f + 1));
        f = f + 1;
    }
    out
}

/// `cel_named` gives the last cel with the identifier, and `None` exactly
/// when no cel has it.
pub proof fn lemma_cel_named(cels: Seq<Cel>, id: Seq<char>)
    ensures
        cel_named(cels, id) matches Some(i) ==> {
            &&& 0 <= i < cels.len()
            &&& cels[i].identifier@ == id
            &&& forall|k: int| i < k < cels.len() ==> (#[trigger] cels[k]).identifier@ != id
        },
        cel_named(cels, id) is None ==> forall|k: int| 0 <= k < cels.len() ==> (#[trigger] cels[k]).identifier@ != id,
    decreases cels.len(),
{
    if cels.len() > 0 && cels.last().identifier@ != id {
        let rest = cels.drop_last();
        lemma_cel_named(rest, id);
        if let Some(i) = cel_named(cels, id) {
            assert forall|k: int| i < k < cels.len() implies (#[trigger] cels[k]).identifier@ != id by {
                if k < cels.len() - 1 {
                    assert(cels[k] == rest[k]);
                }
            }
        } else {
            assert forall|k: int| 0 <= k < cels.len() implies (#[trigger] cels[k]).identifier@ != id by {
                if k < cels.len() - 1 {
                    assert(cels[k] == rest[k]);
                }
            }
        }
    }
}

/// A placement is justified by the sprite: its frame and layer exist, and
/// some clip of that layer covers the frame and names the placed cel.
pub open spec fn placement_justified(s: Sprite, p: Placement) -> bool {
    &&& p.frame_index < s.duration
    &&& p.layer_index < s.layers@.len()
    &&& exists|c: int| #![trigger s.layers@[p.layer_index as int].clips@[c]]
        0 <= c < s.layers@[p.layer_index as int].clips@.len() && {
            let clip = s.layers@[p.layer_index as int].clips@[c];
            &&& clip_covers(clip, p.frame_index as int)
            &&& cel_named(s.cels@, clip.item_identifier@) == Some(p.cel_index as int)
        }
}

/// The placement that clip `c` of layer `l` asks for in frame `f`, when the
/// clip covers the frame and its cel exists.
pub open spec fn wanted(s: Sprite, f: int, l: int, c: int) -> bool {
    let clip = s.layers@[l].clips@[c];
    clip_covers(clip, f) && cel_named(s.cels@, clip.item_identifier@) is Some
}

/// The placement of clip `c` of layer `l` in frame `f`.
pub open spec fn placement_of(s: Sprite, f: int, l: int, c: int) -> Placement {
    Placement {
        frame_index: f as u32,
        layer_index: l as usize,
        cel_index: cel_named(s.cels@, s.layers@[l].clips@[c].item_identifier@)->0 as usize,
    }
}

proof fn lemma_concat_index<A>(a: Seq<A>, b: Seq<A>, i: int)
    requires
        0 <= i < a.len() + b.len(),
    ensures
        i < a.len() ==> (a + b)[i] == a[i],
        i >= a.len() ==> (a + b)[i] == b[i - a.len()],
{
}

proof fn lemma_clips_placements(s: Sprite, f: int, l: int, n: int)
    requires
        0 <= f < s.duration,
        0 <= l < s.layers@.len(),
        0 <= n <= s.layers@[l].clips@.len(),
    ensures
        forall|i: int| 0 <= i < clips_placements(s, f, l, n).len() ==> placement_justified(
            s,
            #[trigger] clips_placements(s, f, l, n)[i],
        ),
        forall|c: int| 0 <= c < n && #[trigger] wanted(s, f, l, c) ==> clips_placements(s, f, l, n).contains(
            placement_of(s, f, l, c),
        ),
    decreases n,
{
    if n > 0 {
        lemma_clips_placements(s, f, l, n - 1);
        let prev = clips_placements(s, f, l, n - 1);
        let cur = clip_placement(s, f, l, n - 1);
        let all = clips_placements(s, f, l, n);
        assert(all == prev + cur);
        assert(s.layers@.len() == s.layers.len());
        assert(s.cels@.len() == s.cels.len());
        lemma_cel_named(s.cels@, s.layers@[l].clips@[n - 1].item_identifier@);
        assert forall|i: int| 0 <= i < all.len() implies placement_justified(s, #[trigger] all[i]) by {
            lemma_concat_index(prev, cur, i);
            if i >= prev.len() {
                let p = all[i];
                assert(p == cur[0]);
                assert(p.layer_index as int == l);
                assert(p.frame_index as int == f);
                let witness = s.layers@[p.layer_index as int].clips@[n - 1];
                assert(clip_covers(witness, p.frame_index as int));
            }
        }
        assert forall|c: int| 0 <= c < n && #[trigger] wanted(s, f, l, c) implies all.contains(
            placement_of(s, f, l, c),
        ) by {
            if c < n - 1 {
                let k = choose|k: int| 0 <= k < prev.len() && prev[k] == placement_of(s, f, l, c);
                lemma_concat_index(prev, cur, k);
                assert(all[k] == placement_of(s, f, l, c));
            } else {
                lemma_concat_index(prev, cur, prev.len() as int);
                assert(all[prev.len() as int] == placement_of(s, f, l, c));
            }
        }
    }
}

proof fn lemma_layers_placements(s: Sprite, f: int, n: int)
    requires
        0 <= f < s.duration,
        0 <= n <= s.layers@.len(),
    ensures
        forall|i: int| 0 <= i < layers_placements(s, f, n).len() ==> placement_justified(
            s,
            #[trigger] layers_placements(s, f, n)[i],
        ),
        forall|l: int, c: int|
            0 <= l < n && 0 <= c < s.layers@[l].clips@.len() && #[trigger] wanted(s, f, l, c)
                ==> layers_placements(s, f, n).contains(placement_of(s, f, l, c)),
    decreases n,
{
    if n > 0 {
        lemma_layers_placements(s, f, n - 1);
        lemma_clips_placements(s, f, n - 1, s.layers@[n - 1].clips@.len() as int);
        let prev = layers_placements(s, f, n - 1);
        let cur = clips_placements(s, f, n - 1, s.layers@[n - 1].clips@.len() as int);
        let all = layers_placements(s, f, n);
        assert(all == prev + cur);
        assert forall|i: int| 0 <= i < all.len() implies placement_justified(s, #[trigger] all[i]) by {
            lemma_concat_index(prev, cur, i);
        }
        assert forall|l: int, c: int|
            0 <= l < n && 0 <= c < s.layers@[l].clips@.len() && #[trigger] wanted(s, f, l, c) implies all.contains(
            placement_of(s, f, l, c),
        ) by {
            if l < n - 1 {
                let k = choose|k: int| 0 <= k < prev.len() && prev[k] == placement_of(s, f, l, c);
                lemma_concat_index(prev, cur, k);
                assert(all[k] == placement_of(s, f, l, c));
            } else {
                let k = choose|k: int| 0 <= k < cur.len() && cur[k] == placement_of(s, f, l, c);
                lemma_concat_index(prev, cur, prev.len() + k);
                assert(all[prev.len() + k] == placement_of(s, f, l, c));
            }
        }
    }
}

proof fn lemma_frames_placements(s: Sprite, n: int)
    requires
        0 <= n <= s.duration,
    ensures
        forall|i: int| 0 <= i < frames_placements(s, n).len() ==> placement_justified(
            s,
            #[trigger] frames_placements(s, n)[i],
        ),
        forall|f: int, l: int, c: int|
            0 <= f < n && 0 <= l < s.layers@.len() && 0 <= c < s.layers@[l].clips@.len() && #[trigger] wanted(
                s,
                f,
                l,
                c,
            ) ==> frames_placements(s, n).contains(placement_of(s, f, l, c)),
    decreases n,
{
    if n > 0 {
        lemma_frames_placements(s, n - 1);
        lemma_layers_placements(s, n - 1, s.layers@.len() as int);
        let prev = frames_placements(s, n - 1);
        let cur = layers_placements(s, n - 1, s.layers@.len() as int);
        let all = frames_placements(s, n);
        assert(all == prev + cur);
        assert forall|i: int| 0 <= i < all.len() implies placement_justified(s, #[trigger] all[i]) by {
            lemma_concat_index(prev, cur, i);
        }
        assert forall|f: int, l: int, c: int|
            0 <= f < n && 0 <= l < s.layers@.len() && 0 <= c < s.layers@[l].clips@.len() && #[trigger] wanted(
                s,
                f,
                l,
                c,
            ) implies all.contains(placement_of(s, f, l, c)) by {
            if f < n - 1 {
                let k = choose|k: int| 0 <= k < prev.len() && prev[k] == placement_of(s, f, l, c);
                lemma_concat_index(prev, cur, k);
                assert(all[k] == placement_of(s, f, l, c));
            } else {
                let k = choose|k: int| 0 <= k < cur.len() && cur[k] == placement_of(s, f, l, c);
                lemma_concat_index(prev, cur, prev.len() + k);
                assert(all[prev.len() + k] == placement_of(s, f, l, c));
            }
        }
    }
}

/// Every placement of a sprite is justified by one of its clips, and every
/// clip that covers a frame (below `duration`) and names an existing cel
/// yields that placement.
pub proof fn lemma_sprite_placements(s: Sprite)
    ensures
        forall|i: int| 0 <= i < sprite_placements(s).len() ==> placement_justified(
            s,
            #[trigger] sprite_placements(s)[i],
        ),
        forall|f: int, l: int, c: int|
            0 <= f < s.duration && 0 <= l < s.layers@.len() && 0 <= c < s.layers@[l].clips@.len()
                && #[trigger] wanted(s, f, l, c) ==> sprite_placements(s).contains(placement_of(s, f, l, c)),
{
    lemma_frames_placements(s, s.duration as int);
}

/// The blend-mode name of a layer; a layer without one is `normal`.
pub open spec fn layer_blend_name(l: Layer) -> Seq<char> {
    match l.blend_mode {
        Some(b) => b@,
        None => "normal"@,
    }
}

/// The output layer that a Pixaki v3 layer becomes.
pub open spec fn output_layer(l: Layer) -> canvas::Layer {
    canvas::Layer {
        name: l.name,
        opacity: l.opacity,
        visible: l.is_visible,
        blend_mode: blend_mode_named(layer_blend_name(l)),
    }
}

/// An output layer keeps its Pixaki layer's name, opacity and visibility (a
/// hidden layer stays hidden), and blends as its blend-mode name says, or
/// normally when it has none.
pub proof fn lemma_output_layer_keeps_fields(l: Layer)
    ensures
        output_layer(l).name == l.name,
        output_layer(l).opacity == l.opacity,
        output_layer(l).visible == l.is_visible,
        l.blend_mode is None ==> output_layer(l).blend_mode == BlendMode::Normal,
        l.blend_mode matches Some(b) ==> output_layer(l).blend_mode == blend_mode_named(b@),
{
    reveal_strlit("normal");
}

/// The output layers of a sprite, one per layer, in order.
pub fn output_layers(sprite: &Sprite) -> (out: Vec<canvas::Layer>)
    ensures
        out@.len() == sprite.layers@.len(),
        forall|i: int| 0 <= i < out@.len() ==> #[trigger] out@[i] == output_layer(sprite.layers@[i]),
        forall|i: int| 0 <= i < out@.len() ==> {
            let o = #[trigger] out@[i];
            let l = sprite.layers@[i];
            &&& o.name == l.name
            &&& o.opacity == l.opacity
            &&& o.visible == l.is_visible
            &&& o.blend_mode == blend_mode_named(layer_blend_name(l))
        },
{
    let mut out: Vec<canvas::Layer> = Vec::new();
    let mut i: usize = 0;
    while i < sprite.layers.len()
        invariant
            i <= sprite.layers.len(),
            out@.len() == i,
            forall|k: int| 0 <= k < i ==> #[trigger] out@[k] == output_layer(sprite.layers@[k]),
        decreases sprite.layers.len() - i,
    {
        let layer = &sprite.layers[i];
        let blend_mode = match &layer.blend_mode {
            Some(b) => map_blend_mode(b.as_str()),
            None => map_blend_mode("normal"),
        };
        out.push(canvas::Layer {
            name: layer.name.clone(),
            opacity: layer.opacity,
            visible: layer.is_visible,
            blend_mode,
        });
        i = i + 1;
    }
    out
}

/// What the output of a Pixaki v3 sprite holds: its size, its layers,
/// `frame_count` frames of `FRAME_DURATION_MS` each, and the cel placements.
#[derive(Debug)]
pub struct ModernPlan {
    pub width: u16,
    pub height: u16,
    pub layers: Vec<canvas::Layer>,
    pub frame_count: u32,
    pub placements: Vec<Placement>,
}

/// The conversion plan of a Pixaki v3 document: that of its first sprite, or
/// `None` when it has no sprite.
pub fn plan_modern(doc: &Document) -> (plan: Option<ModernPlan>)
    ensures
        plan is None <==> doc.sprites@.len() == 0,
        plan matches Some(p) ==> {
            let s = doc.sprites@[0];
            &&& p.width == s.size.width
            &&& p.height == s.size.height
            &&& p.frame_count == s.duration
            &&& p.layers@.len() == s.layers@.len()
            &&& forall|i: int| 0 <= i < p.layers@.len() ==> #[trigger] p.layers@[i] == output_layer(s.layers@[i])
            &&& forall|i: int| 0 <= i < p.layers@.len() ==> {
                let o = #[trigger] p.layers@[i];
                &&& o.name == s.layers@[i].name
                &&& o.opacity == s.layers@[i].opacity
                &&& o.visible == s.layers@[i].is_visible
            }
            &&& p.placements@ == sprite_placements(s)
        },
{
    if doc.sprites.len() == 0 {
        return None;
    }
    let sprite = &doc.sprites[0];
    Some(ModernPlan {
        width: sprite.size.width,
        height: sprite.size.height,
        layers: output_layers(sprite),
        frame_count: sprite.duration,
        placements: cel_placements(sprite),
    })
}

// --- Version 2 (`DocumentInfo.plist`) ---

/// A Pixaki v2 document.
#[derive(Debug)]
pub struct DocumentV2 {
    pub size: SizeV2,
    pub symbols: Vec<SymbolV2>,
}

/// Canvas size in pixels.
#[derive(Clone, Copy, Debug)]
pub struct SizeV2 {
    pub width: u16,
    pub height: u16,
}

/// A sequence of frames.
#[derive(Debug)]
pub struct SymbolV2 {
    pub name: String,
    pub frames: Vec<FrameV2>,
}

/// One frame: an image file per layer.
#[derive(Debug)]
pub struct FrameV2 {
    pub duration: u32,
    pub layers: Vec<LayerV2>,
}

/// One layer of one frame, stored in the file `image_filename`.
#[derive(Debug)]
pub struct LayerV2 {
    /// Alpha on the 0..=255 scale.
    pub alpha: u8,
    pub image_filename: String,
    pub visible: bool,
}

/// Layer `layer_index` of frame `frame_index` of the symbol goes on output
/// layer `layer_index` in output frame `frame_index`.
#[derive(Clone, Copy, Debug, PartialEq, Eq, Structural)]
pub struct LegacyPlacement {
    pub frame_index: usize,
    pub layer_index: usize,
}

/// The name of output layer `i` of a v2 document.
pub open spec fn legacy_layer_name(i: nat) -> Seq<char> {
    "Layer "@ + decimal(i)
}

/// Renders `Layer <i>`.
pub fn layer_name(i: usize) -> (s: String)
    ensures
        s@ == legacy_layer_name(i as nat),
{
    let mut s = String::from_str("Layer ");
    let digits = decimal_string(i);
    s.append(digits.as_str());
    s
}

/// The number of output layers of a v2 symbol: that of its first frame.
pub open spec fn legacy_layer_count(sym: SymbolV2) -> int {
    if sym.frames@.len() > 0 {
        sym.frames@[0].layers@.len() as int
    } else {
        0
    }
}

/// The placements of frame `f`: its layers that have an output layer.
pub open spec fn legacy_frame_placements(sym: SymbolV2, f: int) -> Seq<LegacyPlacement> {
    let n = sym.frames@[f].layers@.len() as int;
    let k = if n < legacy_layer_count(sym) { n } else { legacy_layer_count(sym) };
    Seq::new(k as nat, |l: int| LegacyPlacement { frame_index: f as usize, layer_index: l as usize })
}

/// The placements of the first `n` frames.
pub open spec fn legacy_frames_placements(sym: SymbolV2, n: int) -> Seq<LegacyPlacement>
    decreases n,
{
    if n <= 0 {
        seq![]
    } else {
        legacy_frames_placements(sym, n - 1) + legacy_frame_placements(sym, n - 1)
    }
}

/// All placements of a v2 symbol, frame by frame and layer by layer.
pub open spec fn legacy_placements(sym: SymbolV2) -> Seq<LegacyPlacement> {
    legacy_frames_placements(sym, sym.frames@.len() as int)
}

/// The name of output layer `i` of a v2 document is `Layer `, a space, and
/// then the decimal digits that spell `i`.
pub proof fn lemma_legacy_layer_name_spells_index(i: nat)
    ensures
        legacy_layer_name(i).take(6) == seq!['L', 'a', 'y', 'e', 'r', ' '],
        crate::text::digits_value(legacy_layer_name(i).skip(6)) == i,
{
    reveal_strlit("Layer ");
    assert(legacy_layer_name(i).take(6) =~= seq!['L', 'a', 'y', 'e', 'r', ' ']);
    assert(legacy_layer_name(i).skip(6) =~= decimal(i));
    crate::text::lemma_decimal_value(i);
}

/// Distinct output layers of a v2 document have distinct names.
pub proof fn lemma_legacy_layer_names_distinct(i: nat, j: nat)
    requires
        i != j,
    ensures
        legacy_layer_name(i) != legacy_layer_name(j),
{
    reveal_strlit("Layer ");
    if legacy_layer_name(i) == legacy_layer_name(j) {
        let p = "Layer "@;
        assert(legacy_layer_name(i).skip(p.len() as int) =~= decimal(i));
        assert(legacy_layer_name(j).skip(p.len() as int) =~= decimal(j));
        crate::text::lemma_decimal_injective(i, j);
    }
}

proof fn lemma_legacy_frames_placements(sym: SymbolV2, n: int)
    requires
        0 <= n <= sym.frames@.len(),
    ensures
        forall|p: LegacyPlacement| #[trigger] legacy_frames_placements(sym, n).contains(p) <==> {
            &&& p.frame_index < n
            &&& p.layer_index < sym.frames@[p.frame_index as int].layers@.len()
            &&& p.layer_index < legacy_layer_count(sym)
        },
    decreases n,
{
    assert(sym.frames@.len() == sym.frames.len());
    if n > 0 {
        lemma_legacy_frames_placements(sym, n - 1);
        let prev = legacy_frames_placements(sym, n - 1);
        let cur = legacy_frame_placements(sym, n - 1);
        let all = legacy_frames_placements(sym, n);
        assert(all == prev + cur);
        assert forall|p: LegacyPlacement| #[trigger] all.contains(p) <==> {
            &&& p.frame_index < n
            &&& p.layer_index < sym.frames@[p.frame_index as int].layers@.len()
            &&& p.layer_index < legacy_layer_count(sym)
        } by {
            assert(sym.frames@[n - 1].layers@.len() == sym.frames@[n - 1].layers.len());
            if all.contains(p) {
                let k = choose|k: int| 0 <= k < all.len() && all[k] == p;
                lemma_concat_index(prev, cur, k);
                if k < prev.len() {
                    assert(prev.contains(p));
                } else {
                    assert(p == cur[k - prev.len()]);
                }
            }
            if p.frame_index < n && p.layer_index < sym.frames@[p.frame_index as int].layers@.len()
                && p.layer_index < legacy_layer_count(sym) {
                if p.frame_index < n - 1 {
                    assert(prev.contains(p));
                    let k = choose|k: int| 0 <= k < prev.len() && prev[k] == p;
                    lemma_concat_index(prev, cur, k);
                } else {
                    let k = p.layer_index as int;
                    lemma_concat_index(prev, cur, prev.len() + k);
                    assert(all[prev.len() + k] == p);
                }
            }
        }
    }
}

/// The placements of a v2 symbol are exactly the pairs of a frame of the
/// symbol and a layer of that frame below the first frame's layer count.
pub proof fn lemma_legacy_placements(sym: SymbolV2)
    ensures
        forall|p: LegacyPlacement| #[trigger] legacy_placements(sym).contains(p) <==> {
            &&& p.frame_index < sym.frames@.len()
            &&& p.layer_index < sym.frames@[p.frame_index as int].layers@.len()
            &&& p.layer_index < legacy_layer_count(sym)
        },
{
    lemma_legacy_frames_placements(sym, sym.frames@.len() as int);
}

/// The output layers of a v2 symbol: one per layer of its first frame, named
/// `Layer <i>`, with that layer's alpha and visibility and normal blending.
pub fn legacy_layers(sym: &SymbolV2) -> (out: Vec<canvas::Layer>)
    ensures
        out@.len() == legacy_layer_count(*sym),
        forall|i: int| 0 <= i < out@.len() ==> {
            let l = #[trigger] out@[i];
            &&& l.name@ == legacy_layer_name(i as nat)
            &&& l.opacity == sym.frames@[0].layers@[i].alpha
            &&& l.visible == sym.frames@[0].layers@[i].visible
            &&& l.blend_mode == BlendMode::Normal
        },
{
    let mut out: Vec<canvas::Layer> = Vec::new();
    if sym.frames.len() == 0 {
        return out;
    }
    let first = &sym.frames[0];
    let mut i: usize = 0;
    while i < first.layers.len()
        invariant
            sym.frames@.len() > 0,
            *first == sym.frames@[0],
            i <= first.layers.len(),
            out@.len() == i,
            forall|k: int| 0 <= k < i ==> {
                let l = #[trigger] out@[k];
                &&& l.name@ == legacy_layer_name(k as nat)
                &&& l.opacity == sym.frames@[0].layers@[k].alpha
                &&& l.visible == sym.frames@[0].layers@[k].visible
                &&& l.blend_mode == BlendMode::Normal
            },
        decreases first.layers.len() - i,
    {
        let layer = &first.layers[i];
        out.push(canvas::Layer {
            name: layer_name(i),
            opacity: layer.alpha,
            visible: layer.visible,
            blend_mode: BlendMode::Normal,
        });
        i = i + 1;
    }
    out
}

/// Which layer image goes where: in every frame of the symbol, each of its
/// layers that has an output layer (those below the first frame's layer
/// count), in order.
pub fn legacy_cel_placements(sym: &SymbolV2) -> (out: Vec<LegacyPlacement>)
    ensures
        out@ == legacy_placements(*sym),
{
    let layer_count: usize = if sym.frames.len() > 0 { sym.frames[0].layers.len() } else { 0 };
    let mut out: Vec<LegacyPlacement> = Vec::new();
    let mut f: usize = 0;
    while f < sym.frames.len()
        invariant
            layer_count == legacy_layer_count(*sym),
            f <= sym.frames.len(),
            out@ == legacy_frames_placements(*sym, f as int),
        decreases sym.frames.len() - f,
    {
        let frame = &sym.frames[f];
        let mut l: usize = 0;
        while l < frame.layers.len() && l < layer_count
            invariant
                layer_count == legacy_layer_count(*sym),
                f < sym.frames.len(),
                *frame == sym.frames@[f as int],
                l <= frame.layers.len(),
                l <= layer_count,
                out@ == legacy_frames_placements(*sym, f as int)
                    + legacy_frame_placements(*sym, f as int).take(l as int),
            decreases frame.layers.len() - l,
        {
            out.push(LegacyPlacement { frame_index: f, layer_index: l });
            assert(out@ =~= legacy_frames_placements(*sym, f as int)
                + legacy_frame_placements(*sym, f as int).take(l + 1));
            l = l + 1;
        }
        assert(legacy_frame_placements(*sym, f as int).take(l as int) =~= legacy_frame_placements(*sym, f as int));
        assert(out@ =~= legacy_frames_placements(*sym, f + 1));
        f = f + 1;
    }
    out
}

/// What the output of a Pixaki v2 document holds: its size, the layers and
/// placements of its first symbol, and one frame of `FRAME_DURATION_MS` per
/// frame of that symbol (none when the document has no symbol).
#[derive(Debug)]
pub struct LegacyPlan {
    pub width: u16,
    pub height: u16,
    pub layers: Vec<canvas::Layer>,
    pub frame_count: usize,
    pub placements: Vec<LegacyPlacement>,
}

/// The conversion plan of a Pixaki v2 document.
pub fn plan_legacy(doc: &DocumentV2) -> (plan: LegacyPlan)
    ensures
        plan.width == doc.size.width,
        plan.height == doc.size.height,
        doc.symbols@.len() == 0 ==> {
            &&& plan.layers@.len() == 0
            &&& plan.frame_count == 0
            &&& plan.placements@.len() == 0
        },
        doc.symbols@.len() > 0 ==> {
            let sym = doc.symbols@[0];
            &&& plan.frame_count == sym.frames@.len()
            &&& plan.placements@ == legacy_placements(sym)
            &&& plan.layers@.len() == legacy_layer_count(sym)
            &&& forall|i: int| 0 <= i < plan.layers@.len() ==> {
                let l = #[trigger] plan.layers@[i];
                &&& l.name@ == legacy_layer_name(i as nat)
                &&& l.opacity == sym.frames@[0].layers@[i].alpha
                &&& l.visible == sym.frames@[0].layers@[i].visible
                &&& l.blend_mode == BlendMode::Normal
            }
        },
{
    if doc.symbols.len() == 0 {
        return LegacyPlan {
            width: doc.size.width,
            height: doc.size.height,
            layers: Vec::new(),
            frame_count: 0,
            placements: Vec::new(),
        };
    }
    let sym = &doc.symbols[0];
    LegacyPlan {
        width: doc.size.width,
        height: doc.size.height,
        layers: legacy_layers(sym),
        frame_count: sym.frames.len(),
        placements: legacy_cel_placements(sym),
    }
}

} // verus!
