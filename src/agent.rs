//! The note-generation agent: from a raw transcript to saved, cross-linked
//! notes. Each outside step (a model call, reading the index, writing a file)
//! is an action handed to the caller, whose outcome comes back as an event.
use vstd::prelude::*;
use crate::link_resolver::{existing_links, resolve, resolve_links, views};
use crate::note::{filename_of, markdown_of, sanitized, strs, Note, NoteDate, NoteView};
use crate::note::clone_strings;
use crate::notes_reader::NoteMeta;
use crate::prompts::{
    correction_prompt_for, correction_user_prompt, generation_system_prompt, generation_user_prompt,
    system_prompt_for, user_prompt_for, CORRECTION_SYSTEM_PROMPT,
};

verus! {

/// The provenance of every generated note.
pub const VOICE_MEMO_SOURCE: &'static str = "voice-memo";

/// One note as the model returned it.
#[derive(Clone, Debug)]
pub struct NoteDraft {
    pub title: String,
    pub content: String,
    pub tags: Vec<String>,
    pub related_notes: Option<Vec<String>>,
}

/// Each tag sanitized.
pub open spec fn sanitized_all(tags: Seq<Seq<char>>) -> Seq<Seq<char>> {
    tags.map_values(|t: Seq<char>| sanitized(t))
}

/// The note made from a draft at time `now`: tags sanitized, source fixed.
pub open spec fn note_from_draft(d: NoteDraft, now: NoteDate) -> NoteView {
    NoteView {
        title: d.title@,
        content: d.content@,
        tags: sanitized_all(strs(d.tags@)),
        date: now,
        source: VOICE_MEMO_SOURCE@,
        related_notes: match d.related_notes {
            Some(r) => strs(r@),
            None => Seq::empty(),
        },
    }
}

/// The notes made from a batch of drafts, all dated `now`.
pub fn notes_from_drafts(drafts: Vec<NoteDraft>, now: NoteDate) -> (r: Vec<Note>)
    ensures
        views(r@) == drafts@.map_values(|d: NoteDraft| note_from_draft(d, now)),
{
    let mut r: Vec<Note> = Vec::new();
    let mut i: usize = 0;
    while i < drafts.len()
        invariant
            i <= drafts.len(),
            r@.len() == i,
            forall|k: int| 0 <= k < i ==> r@[k]@ == note_from_draft(drafts@[k], now),
        decreases drafts.len() - i,
    {
        let d = &drafts[i];
        let mut tags: Vec<String> = Vec::new();
        let mut k: usize = 0;
        while k < d.tags.len()
            invariant
                k <= d.tags.len(),
                strs(tags@) == sanitized_all(strs(d.tags@.subrange(0, k as int))),
            decreases d.tags.len() - k,
        {
            let ghost prev = tags@;
            tags.push(Note::sanitize_tag(d.tags[k].as_str()));
            assert(strs(d.tags@.subrange(0, k + 1)) =~= strs(d.tags@.subrange(0, k as int)).push(
                d.tags@[k as int]@,
            ));
            assert(strs(tags@) =~= strs(prev).push(tags@[k as int]@));
            assert(sanitized_all(strs(d.tags@.subrange(0, k + 1))) =~= sanitized_all(
                strs(d.tags@.subrange(0, k as int)),
            ).push(sanitized(d.tags@[k as int]@)));
            k += 1;
        }
        assert(d.tags@.subrange(0, d.tags.len() as int) =~= d.tags@);
        let related = match &d.related_notes {
            Some(v) => clone_strings(v),
            None => Vec::new(),
        };
        assert(d.related_notes is None ==> strs(related@) =~= Seq::<Seq<char>>::empty());
        let note = Note {
            title: d.title.clone(),
            content: d.content.clone(),
            tags,
            date: now,
            source: VOICE_MEMO_SOURCE.to_owned(),
            related_notes: related,
        };
        assert(note@ =~= note_from_draft(drafts@[i as int], now));
        r.push(note);
        i += 1;
    }
    assert(views(r@) =~= drafts@.map_values(|d: NoteDraft| note_from_draft(d, now)));
    r
}

/// The transcript that generation works on: the corrected text, or the raw
/// one where the correction call failed.
pub fn cleaned_transcript(raw: &String, corrected: Result<String, String>) -> (r: String)
    ensures
        r@ == (match corrected {
            Ok(c) => c@,
            Err(_) => raw@,
        }),
{
    match corrected {
        Ok(c) => c,
        Err(_) => raw.clone(),
    }
}

/// Where a pipeline run stands.
#[derive(Clone, Copy, Debug, PartialEq, Eq, Structural)]
pub enum AgentStage {
    Correcting,
    ReadingIndex,
    Generating,
    Writing,
    Done,
    Failed,
}

/// What the caller is to do next.
#[derive(Clone, Debug)]
pub enum AgentAction {
    /// Ask the model, in plain-text mode, to correct the transcript.
    Correct { system_prompt: String, user_prompt: String },
    /// Read the index of the notes directory.
    ReadIndex { notes_dir: String },
    /// Ask the model, in JSON mode, for the notes.
    Generate { system_prompt: String, user_prompt: String },
    /// Write one note's file into the notes directory.
    WriteNote { notes_dir: String, filename: String, markdown: String },
    /// The run is complete; its result is in the run.
    Finish,
    /// The run stopped on a fatal error.
    Fail { message: String },
}

/// What came of the last action.
pub enum AgentEvent {
    /// The correction call's text, or its error.
    Corrected(Result<String, String>),
    /// The index of existing notes, or why it could not be read.
    IndexRead(Result<Vec<NoteMeta>, String>),
    /// The parsed drafts of the generation call, or its error, with the time
    /// the notes are dated.
    Generated(Result<Vec<NoteDraft>, String>, NoteDate),
    /// The path the note was written to, or why it was not.
    NoteWritten(Result<String, String>),
}

/// The state of one pipeline run, and at its end its result.
pub struct AgentRun {
    pub stage: AgentStage,
    pub raw_transcript: String,
    pub cleaned_transcript: String,
    pub existing_notes: Vec<NoteMeta>,
    pub notes: Vec<Note>,
    pub saved_paths: Vec<String>,
    pub next_note: usize,
}

/// The aggregate of a completed run.
pub struct AgentResult {
    pub notes: Vec<Note>,
    pub saved_paths: Vec<String>,
    pub cleaned_transcript: String,
    pub raw_transcript: String,
}

impl AgentRun {
    /// The result of the run so far.
    pub fn into_result(self) -> (r: AgentResult)
        ensures
            r.notes@ == self.notes@,
            r.saved_paths@ == self.saved_paths@,
            r.cleaned_transcript@ == self.cleaned_transcript@,
            r.raw_transcript@ == self.raw_transcript@,
    {
        AgentResult {
            notes: self.notes,
            saved_paths: self.saved_paths,
            cleaned_transcript: self.cleaned_transcript,
            raw_transcript: self.raw_transcript,
        }
    }
}

/// The event is the outcome that a run at this stage waits for.
pub open spec fn event_fits(stage: AgentStage, event: AgentEvent) -> bool {
    ||| stage == AgentStage::Correcting && event is Corrected
    ||| stage == AgentStage::ReadingIndex && event is IndexRead
    ||| stage == AgentStage::Generating && event is Generated
    ||| stage == AgentStage::Writing && event is NoteWritten
}

/// The action that writes note `i` of `notes` into `dir`.
pub open spec fn writes_note(a: AgentAction, dir: Seq<char>, notes: Seq<Note>, i: int) -> bool {
    a matches AgentAction::WriteNote { notes_dir, filename, markdown } && notes_dir@ == dir
        && filename@ == filename_of(notes[i].title@) && markdown@ == markdown_of(notes[i]@)
}

/// Orchestrates correction, index reading, generation, link resolution and
/// writing for one notes directory.
pub struct NoteGeneratorAgent {
    pub notes_dir: String,
    pub correction_enabled: bool,
}

impl NoteGeneratorAgent {
    pub fn new(notes_dir: String, correction_enabled: bool) -> (r: NoteGeneratorAgent)
        ensures
            r.notes_dir@ == notes_dir@,
            r.correction_enabled == correction_enabled,
    {
        NoteGeneratorAgent { notes_dir, correction_enabled }
    }

    /// The system prompt of note generation, listing the existing notes.
    pub fn build_system_prompt(existing_notes: &[NoteMeta]) -> (r: String)
        ensures
            r@ == generation_system_prompt(existing_notes@),
    {
        system_prompt_for(existing_notes)
    }

    /// The user prompt of note generation.
    pub fn build_user_prompt(transcript: &str) -> (r: String)
        ensures
            r@ == generation_user_prompt(transcript@),
    {
        user_prompt_for(transcript)
    }

    /// Rewrites a batch so that every cross-reference uses a canonical stem.
    pub fn post_process_links(notes: Vec<Note>, existing_notes: &[NoteMeta]) -> (r: Vec<Note>)
        ensures
            views(r@) == resolve(views(notes@), existing_links(existing_notes@)),
    {
        resolve_links(notes, existing_notes)
    }

    /// The action after which the index is read.
    fn read_index(&self) -> (a: AgentAction)
        ensures
            a matches AgentAction::ReadIndex { notes_dir } && notes_dir@ == self.notes_dir@,
    {
        AgentAction::ReadIndex { notes_dir: self.notes_dir.clone() }
    }

    /// Starts a run on a raw transcript: with correction on, the first
    /// action asks for it; otherwise the raw text is taken as cleaned and the
    /// index is read.
    pub fn start(&self, raw_transcript: String) -> (r: (AgentRun, AgentAction))
        ensures
            r.0.raw_transcript@ == raw_transcript@,
            r.0.existing_notes@.len() == 0,
            r.0.notes@.len() == 0,
            r.0.saved_paths@.len() == 0,
            self.correction_enabled ==> r.0.stage == AgentStage::Correcting && (r.1 matches AgentAction::Correct { system_prompt, user_prompt }
                && system_prompt@ == CORRECTION_SYSTEM_PROMPT@ && user_prompt@
                == correction_user_prompt(raw_transcript@)),
            !self.correction_enabled ==> r.0.stage == AgentStage::ReadingIndex
                && r.0.cleaned_transcript@ == raw_transcript@ && (r.1 matches AgentAction::ReadIndex { notes_dir }
                && notes_dir@ == self.notes_dir@),
    {
        let cleaned = raw_transcript.clone();
        if self.correction_enabled {
            let user_prompt = correction_prompt_for(raw_transcript.as_str());
            let run = AgentRun {
                stage: AgentStage::Correcting,
                raw_transcript,
                cleaned_transcript: cleaned,
                existing_notes: Vec::new(),
                notes: Vec::new(),
                saved_paths: Vec::new(),
                next_note: 0,
            };
            (
                run,
                AgentAction::Correct {
                    system_prompt: CORRECTION_SYSTEM_PROMPT.to_owned(),
                    user_prompt,
                },
            )
        } else {
            let run = AgentRun {
                stage: AgentStage::ReadingIndex,
                raw_transcript,
                cleaned_transcript: cleaned,
                existing_notes: Vec::new(),
                notes: Vec::new(),
                saved_paths: Vec::new(),
                next_note: 0,
            };
            (run, self.read_index())
        }
    }

    /// The next write, or the end of the run when every note has had one.
    fn after_write(&self, run: AgentRun) -> (r: (AgentRun, AgentAction))
        ensures
            r.0.stage == AgentStage::Writing ==> r.0.next_note < r.0.notes@.len(),
            r.0.raw_transcript@ == run.raw_transcript@,
            r.0.cleaned_transcript@ == run.cleaned_transcript@,
            r.0.existing_notes@ == run.existing_notes@,
            r.0.notes@ == run.notes@,
            r.0.saved_paths@ == run.saved_paths@,
            r.0.next_note == run.next_note,
            run.next_note < run.notes@.len() ==> r.0.stage == AgentStage::Writing && writes_note(
                r.1,
                self.notes_dir@,
                run.notes@,
                run.next_note as int,
            ),
            run.next_note >= run.notes@.len() ==> r.0.stage == AgentStage::Done && r.1
                is Finish,
    {
        let mut run = run;
        if run.next_note < run.notes.len() {
            let note = &run.notes[run.next_note];
            let action = AgentAction::WriteNote {
                notes_dir: self.notes_dir.clone(),
                filename: note.generate_filename(),
                markdown: note.to_markdown(),
            };
            run.stage = AgentStage::Writing;
            (run, action)
        } else {
            run.stage = AgentStage::Done;
            (run, AgentAction::Finish)
        }
    }

    /// Takes the outcome of the last action and gives the next one.
    /// A failed correction falls back to the raw transcript; an unreadable
    /// index counts as empty; a failed generation ends the run; a failed
    /// write drops that note's path and the batch goes on.
    pub fn step(&self, run: AgentRun, event: AgentEvent) -> (r: (AgentRun, AgentAction))
        ensures
            r.0.raw_transcript@ == run.raw_transcript@,
            (run.stage == AgentStage::Correcting && event is Corrected) ==> ({
                let res = event->Corrected_0;
                &&& r.0.stage == AgentStage::ReadingIndex
                &&& r.0.cleaned_transcript@ == (match res {
                    Ok(c) => c@,
                    Err(_) => run.raw_transcript@,
                })
                &&& r.1 matches AgentAction::ReadIndex { notes_dir }
                &&& notes_dir@ == self.notes_dir@
            }),
            (run.stage == AgentStage::ReadingIndex && event is IndexRead) ==> ({
                let res = event->IndexRead_0;
                &&& r.0.stage == AgentStage::Generating
                &&& r.0.cleaned_transcript@ == run.cleaned_transcript@
                &&& r.0.existing_notes@ == (match res {
                    Ok(v) => v@,
                    Err(_) => Seq::<NoteMeta>::empty(),
                })
                &&& r.1 matches AgentAction::Generate { system_prompt, user_prompt }
                &&& system_prompt@ == generation_system_prompt(r.0.existing_notes@)
                &&& user_prompt@ == generation_user_prompt(run.cleaned_transcript@)
            }),
            (run.stage == AgentStage::Generating && event is Generated) ==> ({
                let res = event->Generated_0;
                let now = event->Generated_1;
                &&& r.0.cleaned_transcript@ == run.cleaned_transcript@
                &&& match res {
                    Ok(drafts) => {
                        &&& views(r.0.notes@) == resolve(
                            drafts@.map_values(|d: NoteDraft| note_from_draft(d, now)),
                            existing_links(run.existing_notes@),
                        )
                        &&& r.0.saved_paths@.len() == 0
                        &&& r.0.next_note == 0
                        &&& r.0.notes@.len() > 0 ==> r.0.stage == AgentStage::Writing
                            && writes_note(r.1, self.notes_dir@, r.0.notes@, 0)
                        &&& r.0.notes@.len() == 0 ==> r.0.stage == AgentStage::Done && r.1 is Finish
                    },
                    Err(e) => {
                        &&& r.0.stage == AgentStage::Failed
                        &&& r.1 matches AgentAction::Fail { message }
                        &&& message@ == e@
                    },
                }
            }),
            r.0.stage == AgentStage::Writing ==> r.0.next_note < r.0.notes@.len(),
            !event_fits(run.stage, event) ==> r.0.stage == AgentStage::Failed && r.1 is Fail,
            (run.stage == AgentStage::Writing && run.next_note < run.notes@.len()
                && event is NoteWritten) ==> ({
                let res = event->NoteWritten_0;
                &&& r.0.cleaned_transcript@ == run.cleaned_transcript@
                &&& r.0.notes@ == run.notes@
                &&& r.0.next_note == run.next_note + 1
                &&& r.0.saved_paths@ == (match res {
                    Ok(p) => run.saved_paths@.push(p),
                    Err(_) => run.saved_paths@,
                })
                &&& run.next_note + 1 < run.notes@.len() ==> r.0.stage == AgentStage::Writing
                    && writes_note(r.1, self.notes_dir@, run.notes@, run.next_note + 1)
                &&& run.next_note + 1 >= run.notes@.len() ==> r.0.stage == AgentStage::Done
                    && r.1 is Finish
            }),
    {
        let mut run = run;
        match (run.stage, event) {
            (AgentStage::Correcting, AgentEvent::Corrected(res)) => {
                run.cleaned_transcript = cleaned_transcript(&run.raw_transcript, res);
                run.stage = AgentStage::ReadingIndex;
                let a = self.read_index();
                (run, a)
            },
            (AgentStage::ReadingIndex, AgentEvent::IndexRead(res)) => {
                run.existing_notes = match res {
                    Ok(v) => v,
                    Err(_) => Vec::new(),
                };
                run.stage = AgentStage::Generating;
                let system_prompt = system_prompt_for(run.existing_notes.as_slice());
                let user_prompt = user_prompt_for(run.cleaned_transcript.as_str());
                (run, AgentAction::Generate { system_prompt, user_prompt })
            },
            (AgentStage::Generating, AgentEvent::Generated(res, now)) => {
                match res {
                    Ok(drafts) => {
                        let notes = notes_from_drafts(drafts, now);
                        run.notes = resolve_links(notes, run.existing_notes.as_slice());
                        run.saved_paths = Vec::new();
                        run.next_note = 0;
                        self.after_write(run)
                    },
                    Err(e) => {
                        run.stage = AgentStage::Failed;
                        (run, AgentAction::Fail { message: e })
                    },
                }
            },
            (AgentStage::Writing, AgentEvent::NoteWritten(res)) => {
                if run.next_note < run.notes.len() {
                    match res {
                        Ok(p) => run.saved_paths.push(p),
                        Err(_) => {},
                    }
                    run.next_note = run.next_note + 1;
                }
                self.after_write(run)
            },
            (_, _) => {
                run.stage = AgentStage::Failed;
                (run, AgentAction::Fail { message: "the event does not fit the stage of the run".to_owned() })
            },
        }
    }
}

} // verus!
