use dot_transcriber::agent::NoteGeneratorAgent;
use dot_transcriber::note::{Note, NoteDate};
use dot_transcriber::notes_reader::NoteMeta;

fn day(y: i32, m: u32, d: u32) -> NoteDate {
    NoteDate::new(y, m, d, 10, 30, 0).unwrap()
}

fn note(title: &str, content: &str, tags: &[&str]) -> Note {
    Note {
        title: title.to_string(),
        content: content.to_string(),
        tags: tags.iter().map(|t| t.to_string()).collect(),
        date: day(2024, 1, 15),
        source: "voice-memo".to_string(),
        related_notes: vec![],
    }
}

fn meta(title: &str, date: &str, tags: &[&str], filename: &str) -> NoteMeta {
    NoteMeta {
        title: title.to_string(),
        date: date.to_string(),
        tags: tags.iter().map(|t| t.to_string()).collect(),
        filename: filename.to_string(),
        source: "voice-memo".to_string(),
    }
}

#[test]
fn test_generate_filename() {
    let n = Note {
        title: "Test Note: Example!".to_string(),
        content: "content".to_string(),
        tags: vec![],
        date: day(2024, 1, 15),
        source: "voice-memo".to_string(),
        related_notes: vec![],
    };
    let filename = n.generate_filename();
    assert_eq!(filename, "Test Note Example!.md");
    assert!(!filename.contains(':'));
}

#[test]
fn test_filename_stem() {
    let n = Note {
        title: "My Great Note".to_string(),
        content: "content".to_string(),
        tags: vec![],
        date: day(2025, 6, 1),
        source: "voice-memo".to_string(),
        related_notes: vec![],
    };
    assert_eq!(n.filename_stem(), "My Great Note");
}

#[test]
fn test_sanitize_tag() {
    assert_eq!(Note::sanitize_tag("machine learning"), "machine-learning");
    assert_eq!(Note::sanitize_tag("rust"), "rust");
    assert_eq!(Note::sanitize_tag("c++/templates"), "c/templates");
    assert_eq!(Note::sanitize_tag("my_tag"), "my_tag");
}

#[test]
fn test_to_markdown_with_related_notes() {
    let mut n = note("Test", "Some content", &["rust"]);
    n.related_notes = vec!["Other Note".to_string(), "Another".to_string()];
    let md = n.to_markdown();
    assert!(md.contains("[[Other Note]]"), "should have wiki-link for related note");
    assert!(md.contains("[[Another]]"), "should have wiki-link for related note");
    assert!(md.contains("related:"));
}

#[test]
fn test_build_system_prompt_without_existing() {
    let prompt = NoteGeneratorAgent::build_system_prompt(&[]);
    assert!(!prompt.contains("NOTE ESISTENTI"));
    assert!(prompt.contains("related_notes"));
}

#[test]
fn test_build_system_prompt_with_existing() {
    let existing = vec![meta("Rust Tips", "2024-01-15", &["rust", "programming"], "20240115_rust-tips.md")];
    let prompt = NoteGeneratorAgent::build_system_prompt(&existing);
    assert!(prompt.contains("NOTE ESISTENTI NEL SISTEMA"));
    assert!(prompt.contains("Rust Tips"));
    assert!(prompt.contains("rust, programming"));
    assert!(prompt.contains("LINK INTERNI (OBBLIGATORIO)"));
    assert!(prompt.contains("[[Titolo Nota]]"));
    let notes_pos = prompt.find("NOTE ESISTENTI").unwrap();
    let rules_pos = prompt.find("Regole per la creazione").unwrap();
    assert!(notes_pos < rules_pos, "Existing notes should appear before rules");
}

#[test]
fn test_post_process_links_injects_wiki_links_with_filename() {
    let existing = vec![meta("Architettura Microservizi", "2024-01-10", &["architettura"], "Architettura Microservizi.md")];
    let notes = vec![note(
        "API Gateway",
        "Il pattern API Gateway si integra con Architettura Microservizi per gestire il routing.",
        &["api"],
    )];
    let result = NoteGeneratorAgent::post_process_links(notes, &existing);
    assert!(result[0].content.contains("[[Architettura Microservizi]]"));
    assert!(!result[0].content.contains("[[[["));
}

#[test]
fn test_post_process_links_uses_filename_not_title() {
    let existing = vec![meta("Rust Tips", "2024-01-10", &["rust"], "20240110_rust-tips.md")];
    let notes = vec![note("Appunti", "Vedi Rust Tips per dettagli.", &["rust"])];
    let result = NoteGeneratorAgent::post_process_links(notes, &existing);
    assert!(result[0].content.contains("[[20240110_rust-tips]]"));
    assert!(!result[0].content.contains("[[Rust Tips]]"));
}

#[test]
fn test_post_process_replaces_title_link_with_filename_link() {
    let existing = vec![meta("Rust Tips", "2024-01-10", &["rust"], "20240110_rust-tips.md")];
    let notes = vec![note("Appunti", "Vedi [[Rust Tips]] per dettagli.", &["rust"])];
    let result = NoteGeneratorAgent::post_process_links(notes, &existing);
    assert!(result[0].content.contains("[[20240110_rust-tips]]"));
    assert!(!result[0].content.contains("[[Rust Tips]]"));
}

#[test]
fn test_post_process_cross_links_batch_notes_use_filename_stems() {
    let notes = vec![
        note("Nota A", "Contenuto A", &["rust", "coding"]),
        note("Nota B", "Contenuto B", &["rust"]),
        note("Nota C", "Contenuto C", &["unrelated"]),
    ];
    let result = NoteGeneratorAgent::post_process_links(notes, &[]);
    assert!(result[0].related_notes.contains(&"Nota B".to_string()));
    assert!(result[1].related_notes.contains(&"Nota A".to_string()));
    assert!(!result[0].related_notes.contains(&"Nota C".to_string()));
    assert!(!result[2].related_notes.contains(&"Nota A".to_string()));
}
