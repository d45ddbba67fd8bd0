use dot_transcriber::agent::{
    cleaned_transcript, AgentAction, AgentEvent, AgentStage, NoteDraft, NoteGeneratorAgent,
};
use dot_transcriber::config::{default_true, TranscriptionConfig};
use dot_transcriber::note::{Note, NoteDate};
use dot_transcriber::notes_reader::NoteMeta;
use dot_transcriber::tools::{Corrector, NoteWriter, Tool};
use dot_transcriber::transcription::{create_transcription_provider, ProviderError, ProviderPlan};

fn draft(title: &str, tags: &[&str]) -> NoteDraft {
    NoteDraft {
        title: title.to_string(),
        content: format!("Testo di {}", title),
        tags: tags.iter().map(|t| t.to_string()).collect(),
        related_notes: None,
    }
}

#[test]
fn failed_correction_keeps_raw_transcript() {
    let raw = "ciao mondo".to_string();
    assert_eq!(cleaned_transcript(&raw, Err("network".to_string())), "ciao mondo");
    assert_eq!(cleaned_transcript(&raw, Ok("Ciao, mondo.".to_string())), "Ciao, mondo.");
}

#[test]
fn pipeline_runs_to_completion() {
    let agent = NoteGeneratorAgent::new("notes".to_string(), true);
    let (run, action) = agent.start("testo grezzo".to_string());
    assert_eq!(run.stage, AgentStage::Correcting);
    match action {
        AgentAction::Correct { system_prompt, user_prompt } => {
            assert_eq!(system_prompt, Corrector::system_prompt());
            assert!(user_prompt.contains("testo grezzo"));
        }
        _ => panic!("expected a correction request"),
    }
    let (run, action) = agent.step(run, AgentEvent::Corrected(Err("down".to_string())));
    assert_eq!(run.cleaned_transcript, "testo grezzo");
    assert!(matches!(action, AgentAction::ReadIndex { .. }));
    let (run, action) = agent.step(run, AgentEvent::IndexRead(Err("missing".to_string())));
    assert!(run.existing_notes.is_empty());
    match action {
        AgentAction::Generate { system_prompt, user_prompt } => {
            assert!(!system_prompt.contains("NOTE ESISTENTI"));
            assert_eq!(
                user_prompt,
                "Trascrizione del messaggio vocale:\n\n---\ntesto grezzo\n---\n\nCrea note strutturate da questa trascrizione."
            );
        }
        _ => panic!("expected a generation request"),
    }
    let now = NoteDate::new(2024, 1, 15, 10, 30, 0).unwrap();
    let drafts = vec![draft("Nota A", &["rust lang"]), draft("Nota B", &["rust lang", "c++"])];
    let (run, action) = agent.step(run, AgentEvent::Generated(Ok(drafts), now));
    assert_eq!(run.stage, AgentStage::Writing);
    assert_eq!(run.notes[1].tags, vec!["rust-lang", "c"]);
    assert_eq!(run.notes[0].related_notes, vec!["Nota B"]);
    match action {
        AgentAction::WriteNote { notes_dir, filename, markdown } => {
            assert_eq!(notes_dir, "notes");
            assert_eq!(filename, "Nota A.md");
            assert!(markdown.starts_with("---\ntitle: \"Nota A\"\ndate: 2024-01-15\nsource: voice-memo\n"));
        }
        _ => panic!("expected a write"),
    }
    let (run, action) = agent.step(run, AgentEvent::NoteWritten(Err("disk full".to_string())));
    assert!(matches!(action, AgentAction::WriteNote { .. }));
    let (run, action) = agent.step(run, AgentEvent::NoteWritten(Ok("notes/Nota B.md".to_string())));
    assert!(matches!(action, AgentAction::Finish));
    assert_eq!(run.stage, AgentStage::Done);
    let result = run.into_result();
    assert_eq!(result.notes.len(), 2);
    assert_eq!(result.saved_paths, vec!["notes/Nota B.md"]);
    assert_eq!(result.raw_transcript, "testo grezzo");
}

#[test]
fn generation_failure_is_fatal() {
    let agent = NoteGeneratorAgent::new("notes".to_string(), false);
    let (run, action) = agent.start("t".to_string());
    assert_eq!(run.cleaned_transcript, "t");
    assert!(matches!(action, AgentAction::ReadIndex { .. }));
    let existing = vec![NoteMeta {
        title: "Vecchia".to_string(),
        date: "2024-01-01".to_string(),
        tags: vec![],
        filename: "Vecchia.md".to_string(),
        source: "voice-memo".to_string(),
    }];
    let (run, action) = agent.step(run, AgentEvent::IndexRead(Ok(existing)));
    match action {
        AgentAction::Generate { system_prompt, .. } => {
            assert!(system_prompt.contains("- **Vecchia** (file: `Vecchia`) (2024-01-01)\n"));
        }
        _ => panic!("expected a generation request"),
    }
    let now = NoteDate::new(2024, 1, 15, 0, 0, 0).unwrap();
    let (run, action) = agent.step(run, AgentEvent::Generated(Err("bad json".to_string()), now));
    assert_eq!(run.stage, AgentStage::Failed);
    match action {
        AgentAction::Fail { message } => assert_eq!(message, "bad json"),
        _ => panic!("expected a failure"),
    }
}

#[test]
fn empty_generation_finishes_at_once() {
    let agent = NoteGeneratorAgent::new("notes".to_string(), false);
    let (run, _) = agent.start("t".to_string());
    let (run, _) = agent.step(run, AgentEvent::IndexRead(Ok(vec![])));
    let now = NoteDate::new(2024, 1, 15, 0, 0, 0).unwrap();
    let (run, action) = agent.step(run, AgentEvent::Generated(Ok(vec![]), now));
    assert!(matches!(action, AgentAction::Finish));
    assert_eq!(run.stage, AgentStage::Done);
}

#[test]
fn markdown_has_frontmatter_content_and_links() {
    let n = Note {
        title: "Test".to_string(),
        content: "Some content".to_string(),
        tags: vec!["rust".to_string()],
        date: NoteDate::new(2024, 1, 15, 10, 30, 0).unwrap(),
        source: "voice-memo".to_string(),
        related_notes: vec!["Other Note".to_string()],
    };
    assert_eq!(
        n.to_markdown(),
        "---\ntitle: \"Test\"\ndate: 2024-01-15\nsource: voice-memo\ntags:\n  - rust\nrelated:\n  - \"Other Note\"\n---\n\nSome content\n\n---\n\n## Note correlate\n\n- [[Other Note]]\n"
    );
}

#[test]
fn filename_drops_unsafe_characters_and_collapses_spaces() {
    let n = Note {
        title: "  a/b   c: d?  ".to_string(),
        content: String::new(),
        tags: vec![],
        date: NoteDate::new(2000, 2, 29, 0, 0, 0).unwrap(),
        source: "voice-memo".to_string(),
        related_notes: vec![],
    };
    assert_eq!(n.generate_filename(), "ab c d.md");
    assert_eq!(n.filename_stem(), "ab c d");
    let files = NoteWriter::files_for(&vec![n]);
    assert_eq!(files[0].filename, "ab c d.md");
}

#[test]
fn invalid_dates_are_refused() {
    assert!(NoteDate::new(2023, 2, 29, 0, 0, 0).is_none());
    assert!(NoteDate::new(2024, 13, 1, 0, 0, 0).is_none());
    assert!(NoteDate::new(2024, 1, 1, 24, 0, 0).is_none());
    let d = NoteDate::new(2024, 2, 29, 23, 59, 59).unwrap();
    assert_eq!(d.format_day(), "2024-02-29");
    assert_eq!((d.year(), d.month(), d.day()), (2024, 2, 29));
    assert_eq!(d.clock(), (23, 59, 59));
}

#[test]
fn tag_sanitization_keeps_unicode_letters() {
    assert_eq!(Note::sanitize_tag("caffè latte!"), "caffè-latte");
    assert_eq!(Note::sanitize_tag("a b/c_d"), "a-b/c_d");
}

fn tconfig(provider: &str) -> TranscriptionConfig {
    TranscriptionConfig {
        provider: provider.to_string(),
        language: "it".to_string(),
        model_path: None,
        api_key_env: None,
        model: None,
    }
}

#[test]
fn provider_choice_follows_configuration() {
    assert!(matches!(create_transcription_provider(&tconfig("whisper_local")), Err(ProviderError::MissingModelPath)));
    let mut c = tconfig("whisper_local");
    c.model_path = Some("./models/ggml-large-v3.bin".to_string());
    match create_transcription_provider(&c) {
        Ok(ProviderPlan::WhisperLocal(w)) => {
            assert_eq!(w.model_path(), "./models/ggml-large-v3.bin");
            assert_eq!(w.language(), "it");
        }
        _ => panic!("expected the local provider"),
    }
    match create_transcription_provider(&tconfig("groq")) {
        Ok(ProviderPlan::Groq { api_key_env, model, language }) => {
            assert_eq!(api_key_env, "GROQ_API_KEY");
            assert_eq!(model, "whisper-large-v3-turbo");
            assert_eq!(language, "it");
        }
        _ => panic!("expected groq"),
    }
    match create_transcription_provider(&tconfig("deepgram")) {
        Err(e) => {
            assert_eq!(e, ProviderError::UnknownProvider("deepgram".to_string()));
            assert_eq!(e.message(), "Unknown transcription provider: 'deepgram'. Use 'whisper_local' or 'groq'.");
        }
        _ => panic!("expected an error"),
    }
}

#[test]
fn tools_have_names_and_defaults_hold() {
    assert_eq!(Corrector::new().name(), "corrector");
    assert_eq!(NoteWriter::new().name(), "note_writer");
    assert_eq!(dot_transcriber::notes_reader::NotesReader::new().name(), "notes_reader");
    assert!(default_true());
    let p = Corrector::user_prompt("abc");
    assert_eq!(p, "Trascrizione automatica da correggere:\n\n---\nabc\n---\n\nCorreggi eventuali errori mantenendo il significato originale.");
}

#[test]
fn generation_user_prompt_frames_transcript() {
    assert_eq!(
        NoteGeneratorAgent::build_user_prompt("ciao"),
        "Trascrizione del messaggio vocale:\n\n---\nciao\n---\n\nCrea note strutturate da questa trascrizione."
    );
}

#[test]
fn missing_model_path_has_a_message() {
    assert_eq!(
        ProviderError::MissingModelPath.message(),
        "model_path is required for whisper_local provider"
    );
}

#[test]
fn event_out_of_place_fails_the_run() {
    let agent = NoteGeneratorAgent::new("notes".to_string(), true);
    let (run, _) = agent.start("t".to_string());
    let (run, action) = agent.step(run, AgentEvent::IndexRead(Ok(vec![])));
    assert_eq!(run.stage, AgentStage::Failed);
    assert!(matches!(action, AgentAction::Fail { .. }));
}
