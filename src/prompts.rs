//! The fixed instructions sent to the language model, and the prompts built
//! around a transcript and the index of existing notes.
use vstd::prelude::*;
use crate::note::strs;
use crate::notes_reader::{meta_stem, strip_md_chars, NoteMeta};
use crate::text::{chars_of, push_all, push_str_chars, string_of};

verus! {

/// Instructions for the correction pass.
pub const CORRECTION_SYSTEM_PROMPT: &'static str = r#"Sei un esperto correttore di trascrizioni vocali italiane.

Il tuo compito è correggere errori di trascrizione automatica mantenendo il significato originale.

Correzioni da fare:
- Parole mal riconosciute dal sistema di trascrizione
- Errori grammaticali dovuti alla trascrizione automatica
- Punteggiatura mancante o errata
- Maiuscole appropriate (nomi propri, inizio frasi)
- Parole incomplete o frammentate

IMPORTANTE:
- NON aggiungere informazioni che non ci sono
- NON cambiare il significato originale
- NON rimuovere dettagli importanti
- Mantieni lo stile colloquiale se presente
- Se una parola sembra tecnica o è un nome proprio, mantienila anche se sembra strana

Rispondi SOLO con il testo corretto, senza commenti o spiegazioni."#;

/// Opening of the correction request, before the transcript.
pub const CORRECTION_USER_PREFIX: &'static str = "Trascrizione automatica da correggere:\n\n---\n";

/// Closing of the correction request, after the transcript.
pub const CORRECTION_USER_SUFFIX: &'static str =
    "\n---\n\nCorreggi eventuali errori mantenendo il significato originale.";

/// Heading of the block that lists existing notes.
pub const EXISTING_NOTES_HEADER: &'static str = "## NOTE ESISTENTI NEL SISTEMA\n\nQueste sono le note già presenti nel vault. DEVI consultare questa lista per i link interni e i related_notes.\n\n";

/// Instructions for note generation.
pub const GENERATION_RULES: &'static str = r#"Sei un assistente esperto nella creazione di note strutturate per un sistema di gestione della conoscenza personale (second brain) in Obsidian.

Il tuo compito è:
1. Analizzare la trascrizione di un messaggio vocale
2. Identificare i concetti chiave, idee e informazioni importanti
3. Creare una o più note in formato Markdown ben strutturate

Regole per la creazione delle note:
- Se la trascrizione contiene più argomenti distinti, crea note separate per ciascuno
- Ogni nota deve avere un titolo chiaro e descrittivo
- Struttura il contenuto con headers (##), elenchi puntati e formattazione appropriata
- Suggerisci 2-5 tag rilevanti per ogni nota. I tag NON devono contenere spazi (usa il trattino `-` al posto degli spazi, es: "machine-learning" invece di "machine learning")
- Mantieni il tono e l'intento originale del messaggio
- Se ci sono task o azioni da fare, evidenziali chiaramente

## LINK INTERNI (OBBLIGATORIO)

Questa è una funzionalità CRITICA. Devi creare collegamenti tra le note usando la sintassi Obsidian `[[Titolo Nota]]`.

### Regole per i link inline nel contenuto:
- Quando nel contenuto fai riferimento a un concetto o argomento che corrisponde a una nota esistente, DEVI racchiuderlo in `[[nome file]]` usando il NOME FILE (senza .md) dalla lista delle note esistenti, NON il titolo
- Inserisci i link in modo naturale nel testo, non forzarli dove non hanno senso
- Esempio: se esiste una nota con file `Architettura Microservizi`, scrivi "...come descritto in [[Architettura Microservizi]]..."

### Regole per related_notes:
- DEVI popolare il campo "related_notes" con i NOMI FILE (senza .md) delle note esistenti che sono tematicamente correlate
- Controlla i tag in comune e gli argomenti affini per identificare le correlazioni
- Non lasciare "related_notes" vuoto se ci sono note esistenti pertinenti

### Regole per note multiple dalla stessa trascrizione:
- Se crei più note dalla stessa trascrizione, DEVI farle riferimento tra loro con [[link]] nel contenuto
- Ogni nota deve menzionare le altre note generate nello stesso batch dove pertinente"#;

/// The output format asked of the model.
pub const GENERATION_FORMAT: &'static str = r#"

Formato di output: JSON valido con array "notes" contenente oggetti con campi:
- "title" (stringa)
- "content" (markdown — DEVE contenere [[link]] a note esistenti e note sorelle dove pertinente)
- "tags" (array di stringhe)
- "related_notes" (array di stringhe — titoli ESATTI di note esistenti correlate, NON lasciare vuoto se ci sono correlazioni)

Rispondi SOLO con il JSON, senza testo aggiuntivo prima o dopo."#;

/// Opening of the generation request, before the transcript.
pub const GENERATION_USER_PREFIX: &'static str = "Trascrizione del messaggio vocale:\n\n---\n";

/// Closing of the generation request, after the transcript.
pub const GENERATION_USER_SUFFIX: &'static str =
    "\n---\n\nCrea note strutturate da questa trascrizione.";

/// `items` with `sep` between each two.
pub open spec fn joined(items: Seq<Seq<char>>, sep: Seq<char>) -> Seq<char>
    decreases items.len(),
{
    if items.len() == 0 {
        Seq::empty()
    } else if items.len() == 1 {
        items[0]
    } else {
        joined(items.drop_last(), sep) + sep + items.last()
    }
}

/// The line that presents one existing note to the model: title, stem, then
/// date and tags where known.
pub open spec fn existing_line(m: NoteMeta) -> Seq<char> {
    "- **"@ + m.title@ + "** (file: `"@ + meta_stem(m) + "`)"@ + (if m.date@.len() > 0 {
        " ("@ + m.date@ + ")"@
    } else {
        Seq::empty()
    }) + (if m.tags@.len() > 0 {
        " ["@ + joined(strs(m.tags@), ", "@) + "]"@
    } else {
        Seq::empty()
    }) + seq!['\n']
}

/// The lines of all existing notes, in order.
pub open spec fn existing_block(ex: Seq<NoteMeta>) -> Seq<char>
    decreases ex.len(),
{
    if ex.len() == 0 {
        Seq::empty()
    } else {
        existing_block(ex.drop_last()) + existing_line(ex.last())
    }
}

/// The system prompt of note generation: the existing notes first, when there
/// are any, then the rules and the output format.
pub open spec fn generation_system_prompt(ex: Seq<NoteMeta>) -> Seq<char> {
    (if ex.len() > 0 {
        EXISTING_NOTES_HEADER@ + existing_block(ex) + seq!['\n']
    } else {
        Seq::empty()
    }) + GENERATION_RULES@ + GENERATION_FORMAT@
}

/// The user prompt of note generation.
pub open spec fn generation_user_prompt(transcript: Seq<char>) -> Seq<char> {
    GENERATION_USER_PREFIX@ + transcript + GENERATION_USER_SUFFIX@
}

/// The user prompt of the correction pass.
pub open spec fn correction_user_prompt(transcript: Seq<char>) -> Seq<char> {
    CORRECTION_USER_PREFIX@ + transcript + CORRECTION_USER_SUFFIX@
}

/// Appends `items` joined by `sep`.
fn push_joined(out: &mut Vec<char>, items: &Vec<String>, sep: &str)
    ensures
        final(out)@ == old(out)@ + joined(strs(items@), sep@),
{
    let mut i: usize = 0;
    while i < items.len()
        invariant
            i <= items.len(),
            out@ == old(out)@ + joined(strs(items@.subrange(0, i as int)), sep@),
        decreases items.len() - i,
    {
        proof {
            assert(strs(items@.subrange(0, i + 1)).drop_last() =~= strs(
                items@.subrange(0, i as int),
            ));
        }
        if i > 0 {
            push_str_chars(out, sep);
        }
        push_str_chars(out, items[i].as_str());
        i += 1;
    }
    assert(items@.subrange(0, items.len() as int) =~= items@);
}

/// Appends the line of one existing note.
fn push_existing_line(out: &mut Vec<char>, m: &NoteMeta)
    ensures
        final(out)@ == old(out)@ + existing_line(*m),
{
    let f = chars_of(m.filename.as_str());
    let stem = strip_md_chars(&f);
    let ghost start = out@;
    push_str_chars(out, "- **");
    push_str_chars(out, m.title.as_str());
    push_str_chars(out, "** (file: `");
    push_all(out, &stem);
    push_str_chars(out, "`)");
    let ghost head = "- **"@ + m.title@ + "** (file: `"@ + meta_stem(*m) + "`)"@;
    assert(out@ =~= start + head);
    let ghost date_part = if m.date@.len() > 0 {
        " ("@ + m.date@ + ")"@
    } else {
        Seq::empty()
    };
    if !m.date.as_str().is_empty() {
        push_str_chars(out, " (");
        push_str_chars(out, m.date.as_str());
        push_str_chars(out, ")");
    }
    assert(out@ =~= start + head + date_part);
    let ghost tags_part = if m.tags@.len() > 0 {
        " ["@ + joined(strs(m.tags@), ", "@) + "]"@
    } else {
        Seq::empty()
    };
    if m.tags.len() > 0 {
        push_str_chars(out, " [");
        push_joined(out, &m.tags, ", ");
        push_str_chars(out, "]");
    }
    assert(out@ =~= start + head + date_part + tags_part);
    out.push('\n');
    assert(out@ =~= start + existing_line(*m));
}

/// The system prompt of note generation for this index of existing notes.
pub fn system_prompt_for(existing_notes: &[NoteMeta]) -> (r: String)
    ensures
        r@ == generation_system_prompt(existing_notes@),
{
    let mut out: Vec<char> = Vec::new();
    if existing_notes.len() > 0 {
        push_str_chars(&mut out, EXISTING_NOTES_HEADER);
        let mut i: usize = 0;
        while i < existing_notes.len()
            invariant
                i <= existing_notes.len(),
                out@ == EXISTING_NOTES_HEADER@ + existing_block(
                    existing_notes@.subrange(0, i as int),
                ),
            decreases existing_notes.len() - i,
        {
            assert(existing_notes@.subrange(0, i + 1).drop_last() =~= existing_notes@.subrange(
                0,
                i as int,
            ));
            push_existing_line(&mut out, &existing_notes[i]);
            i += 1;
        }
        assert(existing_notes@.subrange(0, i as int) =~= existing_notes@);
        out.push('\n');
    }
    push_str_chars(&mut out, GENERATION_RULES);
    push_str_chars(&mut out, GENERATION_FORMAT);
    assert(out@ =~= generation_system_prompt(existing_notes@));
    string_of(&out)
}

/// `prefix`, the transcript, then `suffix`.
fn framed(prefix: &str, transcript: &str, suffix: &str) -> (r: String)
    ensures
        r@ == prefix@ + transcript@ + suffix@,
{
    let mut out: Vec<char> = Vec::new();
    push_str_chars(&mut out, prefix);
    push_str_chars(&mut out, transcript);
    push_str_chars(&mut out, suffix);
    assert(out@ =~= prefix@ + transcript@ + suffix@);
    string_of(&out)
}

/// The user prompt of note generation for a transcript.
pub fn user_prompt_for(transcript: &str) -> (r: String)
    ensures
        r@ == generation_user_prompt(transcript@),
{
    framed(GENERATION_USER_PREFIX, transcript, GENERATION_USER_SUFFIX)
}

/// The user prompt of the correction pass for a transcript.
pub fn correction_prompt_for(transcript: &str) -> (r: String)
    ensures
        r@ == correction_user_prompt(transcript@),
{
    framed(CORRECTION_USER_PREFIX, transcript, CORRECTION_USER_SUFFIX)
}

} // verus!
