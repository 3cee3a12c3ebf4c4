//! The whole conversion of one file: from the lines of an ASS file to the
//! text of its SRT file.
use vstd::prelude::*;
use crate::dialogue::{all_well_formed, dialogue_lines, extracted, get_ass_lines,
    lemma_extraction_keeps_order, line_texts, malformed, ExtractError};
use crate::srt::{lemma_blocks_are_numbered, render_srt, srt_blocks, srt_text};

verus! {

/// Converts the lines of one ASS file into the text of its SRT file. `None`
/// stands for a line that could not be read as text.
///
/// The conversion succeeds exactly when no dialogue line is malformed; a file
/// without dialogue lines gives the empty text. Otherwise it fails on the
/// first malformed line and nothing is written.
pub fn ass_to_srt(lines: &Vec<Option<String>>) -> (res: Result<String, ExtractError>)
    ensures
        match res {
            Ok(text) => {
                &&& all_well_formed(line_texts(lines@))
                &&& text@ == srt_text(extracted(line_texts(lines@)))
            },
            Err(e) => {
                &&& e.line < lines@.len()
                &&& malformed(line_texts(lines@)[e.line as int]) == Some(e.kind)
                &&& all_well_formed(line_texts(lines@).take(e.line as int))
            },
        },
{
    match get_ass_lines(lines) {
        Ok(events) => Ok(render_srt(&events)),
        Err(e) => Err(e),
    }
}

/// The SRT text of a file has exactly one block for each of its dialogue
/// lines.
pub proof fn lemma_one_block_per_dialogue_line(lines: Seq<Option<Seq<char>>>)
    ensures
        srt_blocks(extracted(lines)).len() == dialogue_lines(lines).len(),
{
    lemma_extraction_keeps_order(lines);
    lemma_blocks_are_numbered(extracted(lines));
}

} // verus!
