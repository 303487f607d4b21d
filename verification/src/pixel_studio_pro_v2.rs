//! Pixel Studio Pro v2 documents (`.psp`): clips of frames of layers, each
//! layer optionally carrying its drawing history, and the drawing tools that
//! history actions name.
//!
//! Opacities are stored on the 0..=255 scale (the editor writes reals in
//! 0.0..=1.0; the caller scales and clamps them); colours and frame delays,
//! which no conversion reads, are not held.

use vstd::prelude::*;

verus! {

/// A Pixel Studio Pro document.
#[derive(Debug)]
pub struct Document {
    pub version: u32,
    pub id: String,
    pub name: String,
    pub source: Option<String>,
    pub width: u16,
    pub height: u16,
    pub doc_type: u32,
    pub clips: Vec<Clip>,
    pub background: bool,
    pub tile_mode: bool,
    pub tile_fade: u32,
}

/// A sequence of frames.
#[derive(Debug)]
pub struct Clip {
    pub id: String,
    pub name: String,
    pub frames: Vec<Frame>,
    pub layer_types: Vec<u32>,
}

/// A point in time of a clip.
#[derive(Debug)]
pub struct Frame {
    pub id: String,
    pub layers: Vec<Layer>,
    pub layer_groups: Vec<LayerGroup>,
    pub active_layer_index: Option<u32>,
    pub reference: Option<String>,
}

/// A drawing surface of a frame.
#[derive(Debug)]
pub struct Layer {
    pub id: String,
    pub name: String,
    /// Opacity on the 0..=255 scale.
    pub opacity: u8,
    pub hidden: bool,
    pub linked: bool,
    pub outline: u32,
    pub lock: u32,
    pub sx: i32,
    pub sy: i32,
    pub version: u32,
    /// The layer's drawing history, as the JSON text of a `History`.
    pub history_json: Option<String>,
}

/// A named group of layers (by layer id).
#[derive(Debug)]
pub struct LayerGroup {
    pub id: String,
    pub name: String,
    pub index: u32,
    pub hidden: bool,
    pub collapsed: bool,
    pub layers: Vec<String>,
}

/// The drawing history of a layer: its actions, how many of them are in
/// effect (`index`), and an optional flattened source image.
#[derive(Debug)]
pub struct History {
    pub actions: Vec<Action>,
    pub index: u32,
    pub source: Option<String>,
}

/// One drawing command; `tool` is the code of a `Tool`.
#[derive(Debug)]
pub struct Action {
    pub tool: u32,
    pub color_indexes: Option<Vec<u32>>,
    pub positions: String,
    pub colors: String,
    pub meta: Option<String>,
    pub invalid: bool,
}

impl Default for LayerGroup {
    /// An unnamed, visible, expanded group with no layers.
    fn default() -> (g: LayerGroup)
        ensures
            g.id@ == Seq::<char>::empty(),
            g.name@ == Seq::<char>::empty(),
            g.index == 0,
            !g.hidden,
            !g.collapsed,
            g.layers@.len() == 0,
    {
        LayerGroup {
            id: String::new(),
            name: String::new(),
            index: 0,
            hidden: false,
            collapsed: false,
            layers: Vec::new(),
        }
    }
}

impl Default for History {
    /// A history with no actions, index 0 and no source image.
    fn default() -> (h: History)
        ensures
            h.actions@.len() == 0,
            h.index == 0,
            h.source is None,
    {
        History { actions: Vec::new(), index: 0, source: None }
    }
}

impl Default for Action {
    /// A valid action of tool code 0 with empty positions and colours and no
    /// colour indexes or metadata.
    fn default() -> (a: Action)
        ensures
            a.tool == 0,
            a.color_indexes is None,
            a.positions@ == Seq::<char>::empty(),
            a.colors@ == Seq::<char>::empty(),
            a.meta is None,
            !a.invalid,
    {
        Action {
            tool: 0,
            color_indexes: None,
            positions: String::new(),
            colors: String::new(),
            meta: None,
            invalid: false,
        }
    }
}

/// The drawing tools, in the order of their codes (`Pen` is 0).
#[derive(Debug, Clone, Copy, PartialEq, Eq, Structural)]
pub enum Tool {
    Pen,
    Pipette,
    Eraser,
    Fill,
    MoveCamera,
    GenericTool,
    Clear,
    Copy,
    Cut,
    Paste,
    Move,
    MirrorByX,
    MirrorByY,
    FlipByX,
    FlipByY,
    RotateLeft,
    RotateRight,
    DotPen,
    ReplaceColor,
    EraserPen,
    PasteImage,
    RotateRect,
    DitheringPen,
    MagicWand,
    ColorAdjustment,
    Brush,
    PixelSelect,
    Lasso,
    Cursor,
    OutlineTool,
}

/// The code that the file format uses for each tool.
pub open spec fn tool_code(t: Tool) -> u32 {
    match t {
        Tool::Pen => 0,
        Tool::Pipette => 1,
        Tool::Eraser => 2,
        Tool::Fill => 3,
        Tool::MoveCamera => 4,
        Tool::GenericTool => 5,
        Tool::Clear => 6,
        Tool::Copy => 7,
        Tool::Cut => 8,
        Tool::Paste => 9,
        Tool::Move => 10,
        Tool::MirrorByX => 11,
        Tool::MirrorByY => 12,
        Tool::FlipByX => 13,
        Tool::FlipByY => 14,
        Tool::RotateLeft => 15,
        Tool::RotateRight => 16,
        Tool::DotPen => 17,
        Tool::ReplaceColor => 18,
        Tool::EraserPen => 19,
        Tool::PasteImage => 20,
        Tool::RotateRect => 21,
        Tool::DitheringPen => 22,
        Tool::MagicWand => 23,
        Tool::ColorAdjustment => 24,
        Tool::Brush => 25,
        Tool::PixelSelect => 26,
        Tool::Lasso => 27,
        Tool::Cursor => 28,
        Tool::OutlineTool => 29,
    }
}

/// The tool that code `v` names, if any.
pub open spec fn tool_with_code(v: u32) -> Option<Tool> {
    match v {
        0 => Some(Tool::Pen),
        1 => Some(Tool::Pipette),
        2 => Some(Tool::Eraser),
        3 => Some(Tool::Fill),
        4 => Some(Tool::MoveCamera),
        5 => Some(Tool::GenericTool),
        6 => Some(Tool::Clear),
        7 => Some(Tool::Copy),
        8 => Some(Tool::Cut),
        9 => Some(Tool::Paste),
        10 => Some(Tool::Move),
        11 => Some(Tool::MirrorByX),
        12 => Some(Tool::MirrorByY),
        13 => Some(Tool::FlipByX),
        14 => Some(Tool::FlipByY),
        15 => Some(Tool::RotateLeft),
        16 => Some(Tool::RotateRight),
        17 => Some(Tool::DotPen),
        18 => Some(Tool::ReplaceColor),
        19 => Some(Tool::EraserPen),
        20 => Some(Tool::PasteImage),
        21 => Some(Tool::RotateRect),
        22 => Some(Tool::DitheringPen),
        23 => Some(Tool::MagicWand),
        24 => Some(Tool::ColorAdjustment),
        25 => Some(Tool::Brush),
        26 => Some(Tool::PixelSelect),
        27 => Some(Tool::Lasso),
        28 => Some(Tool::Cursor),
        29 => Some(Tool::OutlineTool),
        _ => None,
    }
}

/// The number of tool codes; every code below it names a tool.
pub const TOOL_COUNT: u32 = 30;

impl Tool {
    /// The tool with code `value`, or `Err(())` when no tool has that code.
    pub fn try_from(value: u32) -> (r: Result<Tool, ()>)
        ensures
            r == (match tool_with_code(value) {
                Some(t) => Ok(t),
                None => Err(()),
            }),
    {
        match value {
            0 => Ok(Tool::Pen),
            1 => Ok(Tool::Pipette),
            2 => Ok(Tool::Eraser),
            3 => Ok(Tool::Fill),
            4 => Ok(Tool::MoveCamera),
            5 => Ok(Tool::GenericTool),
            6 => Ok(Tool::Clear),
            7 => Ok(Tool::Copy),
            8 => Ok(Tool::Cut),
            9 => Ok(Tool::Paste),
            10 => Ok(Tool::Move),
            11 => Ok(Tool::MirrorByX),
            12 => Ok(Tool::MirrorByY),
            13 => Ok(Tool::FlipByX),
            14 => Ok(Tool::FlipByY),
            15 => Ok(Tool::RotateLeft),
            16 => Ok(Tool::RotateRight),
            17 => Ok(Tool::DotPen),
            18 => Ok(Tool::ReplaceColor),
            19 => Ok(Tool::EraserPen),
            20 => Ok(Tool::PasteImage),
            21 => Ok(Tool::RotateRect),
            22 => Ok(Tool::DitheringPen),
            23 => Ok(Tool::MagicWand),
            24 => Ok(Tool::ColorAdjustment),
            25 => Ok(Tool::Brush),
            26 => Ok(Tool::PixelSelect),
            27 => Ok(Tool::Lasso),
            28 => Ok(Tool::Cursor),
            29 => Ok(Tool::OutlineTool),
            _ => Err(()),
        }
    }

    /// The code of this tool.
    pub fn code(self) -> (c: u32)
        ensures
            c == tool_code(self),
    {
        match self {
            Tool::Pen => 0,
            Tool::Pipette => 1,
            Tool::Eraser => 2,
            Tool::Fill => 3,
            Tool::MoveCamera => 4,
            Tool::GenericTool => 5,
            Tool::Clear => 6,
            Tool::Copy => 7,
            Tool::Cut => 8,
            Tool::Paste => 9,
            Tool::Move => 10,
            Tool::MirrorByX => 11,
            Tool::MirrorByY => 12,
            Tool::FlipByX => 13,
            Tool::FlipByY => 14,
            Tool::RotateLeft => 15,
            Tool::RotateRight => 16,
            Tool::DotPen => 17,
            Tool::ReplaceColor => 18,
            Tool::EraserPen => 19,
            Tool::PasteImage => 20,
            Tool::RotateRect => 21,
            Tool::DitheringPen => 22,
            Tool::MagicWand => 23,
            Tool::ColorAdjustment => 24,
            Tool::Brush => 25,
            Tool::PixelSelect => 26,
            Tool::Lasso => 27,
            Tool::Cursor => 28,
            Tool::OutlineTool => 29,
        }
    }
}

/// Every tool's code is below `TOOL_COUNT` and names that tool again.
pub proof fn lemma_tool_code_round_trip(t: Tool)
    ensures
        tool_code(t) < TOOL_COUNT,
        tool_with_code(tool_code(t)) == Some(t),
{
}

/// Exactly the codes below `TOOL_COUNT` name a tool, and the tool a code
/// names has that code.
pub proof fn lemma_tool_with_code(v: u32)
    ensures
        tool_with_code(v) is Some <==> v < TOOL_COUNT,
        tool_with_code(v) matches Some(t) ==> tool_code(t) == v,
{
}

/// The tools in the order the file format numbers them.
pub open spec fn tools_in_code_order() -> Seq<Tool> {
    seq![
        Tool::Pen,
        Tool::Pipette,
        Tool::Eraser,
        Tool::Fill,
        Tool::MoveCamera,
        Tool::GenericTool,
        Tool::Clear,
        Tool::Copy,
        Tool::Cut,
        Tool::Paste,
        Tool::Move,
        Tool::MirrorByX,
        Tool::MirrorByY,
        Tool::FlipByX,
        Tool::FlipByY,
        Tool::RotateLeft,
        Tool::RotateRight,
        Tool::DotPen,
        Tool::ReplaceColor,
        Tool::EraserPen,
        Tool::PasteImage,
        Tool::RotateRect,
        Tool::DitheringPen,
        Tool::MagicWand,
        Tool::ColorAdjustment,
        Tool::Brush,
        Tool::PixelSelect,
        Tool::Lasso,
        Tool::Cursor,
        Tool::OutlineTool,
    ]
}

/// Code `v` names the `v`-th tool of the format's order (`Pen` = 0,
/// `Pipette` = 1, `Eraser` = 2, ..., `OutlineTool` = 29), and each tool's code
/// is its place in that order.
pub proof fn lemma_tool_codes_follow_format_order(v: int)
    requires
        0 <= v < TOOL_COUNT,
    ensures
        tool_with_code(v as u32) == Some(tools_in_code_order()[v]),
        tool_code(tools_in_code_order()[v]) == v,
        tools_in_code_order().len() == TOOL_COUNT,
{
}

/// Distinct tools have distinct codes.
pub proof fn lemma_tool_code_injective(a: Tool, b: Tool)
    requires
        tool_code(a) == tool_code(b),
    ensures
        a == b,
{
}

} // verus!
