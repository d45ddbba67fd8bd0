//! The pipeline's tools: the corrector's prompts, the writer's file plan and
//! the name each tool goes by.
use vstd::prelude::*;
use crate::note::{filename_of, markdown_of, Note};
use crate::notes_reader::NotesReader;
use crate::prompts::{correction_prompt_for, correction_user_prompt, CORRECTION_SYSTEM_PROMPT};

verus! {

/// A step of the pipeline that the agent runs by name.
pub trait Tool {
    fn name(&self) -> &'static str;
}

/// Cleans a raw transcript with the language model.
pub struct Corrector {}

impl Corrector {
    pub fn new() -> (r: Corrector) {
        Corrector {  }
    }

    /// The fixed instructions of the correction pass.
    pub fn system_prompt() -> (r: &'static str)
        ensures
            r@ == CORRECTION_SYSTEM_PROMPT@,
    {
        CORRECTION_SYSTEM_PROMPT
    }

    /// The request that carries the transcript to correct.
    pub fn user_prompt(transcript: &str) -> (r: String)
        ensures
            r@ == correction_user_prompt(transcript@),
    {
        correction_prompt_for(transcript)
    }
}

impl Tool for Corrector {
    fn name(&self) -> &'static str {
        "corrector"
    }
}

impl Tool for NotesReader {
    fn name(&self) -> &'static str {
        "notes_reader"
    }
}

/// A note's file: its name and its markdown.
#[derive(Clone, Debug)]
pub struct NoteFile {
    pub filename: String,
    pub markdown: String,
}

/// Saves notes as markdown files.
pub struct NoteWriter {}

impl NoteWriter {
    pub fn new() -> (r: NoteWriter) {
        NoteWriter {  }
    }

    /// The file of each note, in order. Notes whose titles give the same
    /// file name get the same file: the one written last is kept.
    pub fn files_for(notes: &Vec<Note>) -> (r: Vec<NoteFile>)
        ensures
            r@.len() == notes@.len(),
            forall|i: int|
                0 <= i < notes@.len() ==> r@[i].filename@ == filename_of(notes@[i].title@)
                    && r@[i].markdown@ == markdown_of(notes@[i]@),
    {
        let mut r: Vec<NoteFile> = Vec::new();
        let mut i: usize = 0;
        while i < notes.len()
            invariant
                i <= notes.len(),
                r@.len() == i,
                forall|k: int|
                    0 <= k < i ==> r@[k].filename@ == filename_of(notes@[k].title@)
                        && r@[k].markdown@ == markdown_of(notes@[k]@),
            decreases notes.len() - i,
        {
            r.push(NoteFile { filename: notes[i].generate_filename(), markdown: notes[i].to_markdown() });
            i += 1;
        }
        r
    }
}

impl Tool for NoteWriter {
    fn name(&self) -> &'static str {
        "note_writer"
    }
}

} // verus!
