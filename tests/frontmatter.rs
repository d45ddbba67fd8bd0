use dot_transcriber::notes_reader::{NoteMeta, NotesReader};

fn str_field(v: &serde_yaml::Value, key: &str) -> Option<String> {
    v.get(key).and_then(|x| x.as_str()).map(|s| s.to_string())
}

fn meta_of(filename: &str, content: &str) -> Option<NoteMeta> {
    let block = NotesReader::frontmatter_block(content)?;
    let v: serde_yaml::Value = serde_yaml::from_str(&block).ok()?;
    let tags = match v.get("tags").and_then(|t| t.as_sequence()) {
        Some(seq) => seq.iter().filter_map(|t| t.as_str().map(|s| s.to_string())).collect(),
        None => vec![],
    };
    Some(NotesReader::meta_from(
        filename.to_string(),
        str_field(&v, "title"),
        str_field(&v, "date"),
        tags,
        str_field(&v, "source"),
    ))
}

#[test]
fn test_parse_frontmatter_basic() {
    let content = "---\ntitle: \"Test Note\"\ndate: 2024-01-15\nsource: voice-memo\ntags:\n  - rust\n  - coding\n---\n\n# Some content here\n";
    let fm = meta_of("n.md", content).unwrap();
    assert_eq!(fm.title, "Test Note");
    assert_eq!(fm.date, "2024-01-15");
    assert_eq!(fm.tags, vec!["rust", "coding"]);
    assert_eq!(fm.source, "voice-memo");
}

#[test]
fn test_parse_frontmatter_missing_fields() {
    let content = "---\ntitle: \"Minimal\"\n---\n\nContent";
    let fm = meta_of("minimal.md", content).unwrap();
    assert_eq!(fm.title, "Minimal");
    assert!(fm.tags.is_empty());
    assert!(fm.date.is_empty());
}

#[test]
fn test_parse_frontmatter_no_markers() {
    let content = "# Just a heading\nNo frontmatter here.";
    assert!(NotesReader::frontmatter_block(content).is_none());
}

#[test]
fn frontmatter_block_is_the_text_between_markers() {
    let block = NotesReader::frontmatter_block("  \n---\ntitle: x\n---\nbody").unwrap();
    assert_eq!(block, "\ntitle: x\n");
}

#[test]
fn frontmatter_without_closing_marker_is_none() {
    assert!(NotesReader::frontmatter_block("---\ntitle: x\nbody").is_none());
}

#[test]
fn missing_title_defaults_to_file_name() {
    let m = NotesReader::meta_from("idea.md".to_string(), None, None, vec![], None);
    assert_eq!(m.title, "idea.md");
    assert_eq!(m.date, "");
    assert_eq!(m.source, "");
}

#[test]
fn markdown_files_are_recognised_by_extension() {
    assert!(NotesReader::is_note_file("note.md"));
    assert!(NotesReader::is_note_file("a.b.md"));
    assert!(!NotesReader::is_note_file(".md"));
    assert!(!NotesReader::is_note_file("note.txt"));
    assert!(!NotesReader::is_note_file("note.mdx"));
}
