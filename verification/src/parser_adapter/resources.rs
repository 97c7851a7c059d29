//! Lookups into the document-wide style tables.

use vstd::prelude::*;

use super::model::{CharShape, DocInfo};

verus! {

/// The character shape with id `id`, if the table holds one.
pub open spec fn shape_of(doc: DocInfo, id: u32) -> Option<CharShape> {
    if (id as int) < doc.char_shapes@.len() {
        Some(doc.char_shapes@[id as int])
    } else {
        None
    }
}

/// The name of font `id` in language slot `lang`, if the table holds one.
pub open spec fn font_name_of(doc: DocInfo, lang: int, id: u16) -> Option<Seq<char>> {
    if 0 <= lang < doc.font_faces@.len() && (id as int) < doc.font_faces@[lang]@.len() {
        Some(doc.font_faces@[lang]@[id as int].name@)
    } else {
        None
    }
}

/// The character shape with id `id`.
pub fn char_shape(doc_info: &DocInfo, id: u32) -> (r: Option<&CharShape>)
    ensures
        match r {
            Some(cs) => shape_of(*doc_info, id) == Some(*cs),
            None => shape_of(*doc_info, id) is None,
        },
{
    let idx = id as usize;
    if (id as u64) < (doc_info.char_shapes.len() as u64) {
        Some(&doc_info.char_shapes[idx])
    } else {
        None
    }
}

/// The name of font `id` in language slot `lang`.
pub fn font_name(doc_info: &DocInfo, lang: usize, id: u16) -> (r: Option<&str>)
    ensures
        match r {
            Some(n) => font_name_of(*doc_info, lang as int, id) == Some(n@),
            None => font_name_of(*doc_info, lang as int, id) is None,
        },
{
    if lang < doc_info.font_faces.len() {
        let faces = &doc_info.font_faces[lang];
        let idx = id as usize;
        if idx < faces.len() {
            return Some(faces[idx].name.as_str());
        }
    }
    None
}

} // verus!
