use dot_transcriber::agent::NoteGeneratorAgent;
use dot_transcriber::note::{Note, NoteDate};
use dot_transcriber::notes_reader::NoteMeta;

fn note(title: &str, content: &str, tags: &[&str], related: &[&str]) -> Note {
    Note {
        title: title.to_string(),
        content: content.to_string(),
        tags: tags.iter().map(|t| t.to_string()).collect(),
        date: NoteDate::new(2024, 3, 9, 8, 0, 0).unwrap(),
        source: "voice-memo".to_string(),
        related_notes: related.iter().map(|t| t.to_string()).collect(),
    }
}

fn meta(title: &str, filename: &str) -> NoteMeta {
    NoteMeta {
        title: title.to_string(),
        date: String::new(),
        tags: vec![],
        filename: filename.to_string(),
        source: "voice-memo".to_string(),
    }
}

fn same(a: &[Note], b: &[Note]) -> bool {
    a.len() == b.len()
        && a.iter().zip(b).all(|(x, y)| {
            x.title == y.title
                && x.content == y.content
                && x.tags == y.tags
                && x.related_notes == y.related_notes
                && x.source == y.source
                && x.date == y.date
        })
}

#[test]
fn second_pass_changes_nothing() {
    let existing = vec![meta("Rust Tips", "20240110_rust-tips.md"), meta("Architettura Microservizi", "Architettura Microservizi.md")];
    let notes = vec![
        note("Nota A", "Vedi Rust Tips e [[Nota B]] e Architettura Microservizi.", &["rust"], &["Rust Tips"]),
        note("Nota B", "Torna a [[Nota A]].", &["rust", "web"], &[]),
    ];
    let once = NoteGeneratorAgent::post_process_links(notes, &existing);
    let twice = NoteGeneratorAgent::post_process_links(once.clone(), &existing);
    assert!(same(&once, &twice));
    assert_eq!(once[0].content, "Vedi [[20240110_rust-tips]] e [[Nota B]] e [[Architettura Microservizi]].");
    assert_eq!(once[0].related_notes, vec!["20240110_rust-tips", "Nota B"]);
    assert_eq!(once[1].related_notes, vec!["Nota A"]);
}

#[test]
fn existing_mention_is_linked_exactly_once() {
    let existing = vec![meta("Architettura Microservizi", "Architettura Microservizi.md")];
    let notes = vec![note("API Gateway", "Parte di Architettura Microservizi.", &["api"], &[])];
    let out = NoteGeneratorAgent::post_process_links(notes, &existing);
    assert_eq!(out[0].content.matches("[[Architettura Microservizi]]").count(), 1);
    assert!(!out[0].content.contains("[[[["));
    let again = NoteGeneratorAgent::post_process_links(out.clone(), &existing);
    assert_eq!(again[0].content, out[0].content);
}

#[test]
fn sibling_title_link_becomes_stem_link() {
    let notes = vec![
        note("Idea: uno", "Vedi [[Idea: uno]] e [[Piano/due]].", &["a"], &[]),
        note("Piano/due", "Niente.", &["b"], &[]),
    ];
    let out = NoteGeneratorAgent::post_process_links(notes, &[]);
    assert_eq!(out[0].content, "Vedi [[Idea: uno]] e [[Pianodue]].");
}

#[test]
fn related_title_becomes_stem_and_stem_stays() {
    let existing = vec![meta("Rust Tips", "20240110_rust-tips.md")];
    let notes = vec![note("Appunti", "x", &["z"], &["Rust Tips", "some-stem", "20240110_rust-tips", "some-stem"])];
    let out = NoteGeneratorAgent::post_process_links(notes, &existing);
    assert_eq!(out[0].related_notes, vec!["20240110_rust-tips", "some-stem"]);
}

#[test]
fn shared_tag_links_both_ways_and_disjoint_never() {
    let notes = vec![
        note("Uno", "a", &["rust", "coding"], &[]),
        note("Due", "b", &["rust"], &[]),
        note("Tre", "c", &["unrelated"], &[]),
    ];
    let out = NoteGeneratorAgent::post_process_links(notes, &[]);
    assert_eq!(out[0].related_notes, vec!["Due"]);
    assert_eq!(out[1].related_notes, vec!["Uno"]);
    assert!(out[2].related_notes.is_empty());
}

#[test]
fn sibling_title_in_related_becomes_its_stem() {
    let notes = vec![
        note("Piano: A", "x", &["p"], &["Piano: B"]),
        note("Piano: B", "y", &["q"], &[]),
    ];
    let out = NoteGeneratorAgent::post_process_links(notes, &[]);
    assert_eq!(out[0].related_notes, vec!["Piano B"]);
}

#[test]
fn empty_batch_stays_empty() {
    let existing = vec![meta("Rust Tips", "20240110_rust-tips.md")];
    let out = NoteGeneratorAgent::post_process_links(vec![], &existing);
    assert!(out.is_empty());
}

#[test]
fn text_without_mentions_is_unchanged() {
    let existing = vec![meta("Rust Tips", "rust.md")];
    let notes = vec![note("A", "Nothing to see [[here", &["t"], &[])];
    let out = NoteGeneratorAgent::post_process_links(notes, &existing);
    assert_eq!(out[0].content, "Nothing to see [[here");
}
