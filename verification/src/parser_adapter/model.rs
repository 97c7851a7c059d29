//! Plain-value form of the parsed paragraph and style records that the
//! inline lowering reads.

use vstd::prelude::*;

verus! {

/// Start of a character-shape run: a UTF-16 code-unit offset into the
/// paragraph text stream and the id of the shape that applies from there.
#[derive(Debug, Clone, Copy, PartialEq, Eq, Default, Structural)]
pub struct CharShapeRef {
    pub start_pos: u32,
    pub char_shape_id: u32,
}

/// A paragraph's text, the UTF-16 stream offset of each visible character,
/// and its character-shape runs.
#[derive(Debug, Clone, Default)]
pub struct Paragraph {
    pub text: String,
    pub char_offsets: Vec<u32>,
    pub char_shapes: Vec<CharShapeRef>,
}

/// Underline placement of a character shape.
#[derive(Debug, Clone, Copy, PartialEq, Eq, Default, Structural)]
pub enum UnderlineType {
    /// No underline.
    #[default]
    Plain,
    Bottom,
    Top,
}

/// A character shape: font faces per language slot, size, formatting and
/// colour.
#[derive(Debug, Clone, Copy, PartialEq, Eq, Default)]
pub struct CharShape {
    /// Font id for each of the seven language slots; slot 0 is Hangul.
    pub font_ids: [u16; 7],
    pub base_size: i32,
    pub bold: bool,
    pub italic: bool,
    pub underline_type: UnderlineType,
    pub strikethrough: bool,
    pub superscript: bool,
    pub subscript: bool,
    /// Text colour as a `0x00BBGGRR` colour reference; black is 0.
    pub text_color: u32,
}

/// A font face.
#[derive(Debug, Clone, PartialEq, Eq, Default)]
pub struct Font {
    pub name: String,
}

/// Document-wide style tables.
#[derive(Debug, Clone, Default)]
pub struct DocInfo {
    pub char_shapes: Vec<CharShape>,
    /// Font faces for each language slot.
    pub font_faces: Vec<Vec<Font>>,
}

} // verus!
