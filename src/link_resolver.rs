//! Rewrites generated notes so that every cross-reference names a note by its
//! canonical stem: links to existing notes, links between notes of one batch,
//! tag-based sibling links and the normalization of `related_notes`.
use vstd::prelude::*;
use crate::note::{clone_strings, stem_of, stem_chars, strs, Note, NoteView};
use crate::notes_reader::{meta_stem, strip_md_chars, NoteMeta};
use crate::text::{
    chars_of, contains_chars, contains_seq, lemma_links_never_touch, lemma_plain_never_touches_link,
    lemma_replace_inserts, lemma_replace_keeps, lemma_replace_no_new, lemma_replace_removes,
    lemma_replace_same, link, occurs_at, plain_name, push_all, replace_all, replace_chars,
    string_of,
};

verus! {

/// A note title with the stem it is linked by.
pub type LinkPair = (Seq<char>, Seq<char>);

/// The title and stem of each existing note.
pub open spec fn existing_links(ex: Seq<NoteMeta>) -> Seq<LinkPair> {
    ex.map_values(|m: NoteMeta| (m.title@, meta_stem(m)))
}

/// The title and stem of each note of a batch.
pub open spec fn batch_links(notes: Seq<NoteView>) -> Seq<LinkPair> {
    notes.map_values(|n: NoteView| (n.title, stem_of(n.title)))
}

/// The views of a sequence of notes.
pub open spec fn views(notes: Seq<Note>) -> Seq<NoteView> {
    notes.map_values(|n: Note| n@)
}

/// The stem that the first pair titled `key` gives, if any.
pub open spec fn lookup(pairs: Seq<LinkPair>, key: Seq<char>) -> Option<Seq<char>>
    decreases pairs.len(),
{
    if pairs.len() == 0 {
        None
    } else if pairs[0].0 == key {
        Some(pairs[0].1)
    } else {
        lookup(pairs.drop_first(), key)
    }
}

/// One existing note's link applied to content: kept if the stem link is
/// there, a title link rewritten to the stem link, else bare mentions of the
/// title wrapped as stem links.
pub open spec fn link_existing(c: Seq<char>, title: Seq<char>, stem: Seq<char>) -> Seq<char> {
    if contains_seq(c, link(stem)) {
        c
    } else if contains_seq(c, link(title)) {
        replace_all(c, link(title), link(stem))
    } else if contains_seq(c, title) {
        replace_all(c, title, link(stem))
    } else {
        c
    }
}

/// The links of all existing notes applied to content, in order.
pub open spec fn link_existing_all(c: Seq<char>, ex: Seq<LinkPair>) -> Seq<char>
    decreases ex.len(),
{
    if ex.len() == 0 {
        c
    } else {
        link_existing(link_existing_all(c, ex.drop_last()), ex.last().0, ex.last().1)
    }
}

/// A sibling's title link rewritten to its stem link.
pub open spec fn relink_sibling(c: Seq<char>, title: Seq<char>, stem: Seq<char>) -> Seq<char> {
    if contains_seq(c, link(title)) {
        replace_all(c, link(title), link(stem))
    } else {
        c
    }
}

/// The title links of every sibling of note `i` rewritten, in order.
pub open spec fn relink_siblings(c: Seq<char>, batch: Seq<LinkPair>, i: int) -> Seq<char>
    decreases batch.len(),
{
    if batch.len() == 0 {
        c
    } else {
        let prev = relink_siblings(c, batch.drop_last(), i);
        if batch.len() - 1 == i {
            prev
        } else {
            relink_sibling(prev, batch.last().0, batch.last().1)
        }
    }
}

/// Two tag lists have a tag in common.
pub open spec fn shares_tag(a: Seq<Seq<char>>, b: Seq<Seq<char>>) -> bool {
    exists|k: int, l: int| 0 <= k < a.len() && 0 <= l < b.len() && #[trigger] a[k] == #[trigger] b[l]
}

/// `rel` with the stem of each sibling of note `i` that shares a tag with it
/// appended, where not there yet.
pub open spec fn add_sibling_links(
    rel: Seq<Seq<char>>,
    my_tags: Seq<Seq<char>>,
    batch: Seq<LinkPair>,
    tags: Seq<Seq<Seq<char>>>,
    i: int,
) -> Seq<Seq<char>>
    decreases batch.len(),
{
    if batch.len() == 0 {
        rel
    } else {
        let j = batch.len() - 1;
        let prev = add_sibling_links(rel, my_tags, batch.drop_last(), tags, i);
        if j != i && shares_tag(my_tags, tags[j]) && !prev.contains(batch[j].1) {
            prev.push(batch[j].1)
        } else {
            prev
        }
    }
}

/// A `related_notes` entry as a stem: an existing note's title gives its
/// stem, else a sibling's title gives its stem, else it is kept.
pub open spec fn normalize_entry(r: Seq<char>, ex: Seq<LinkPair>, batch: Seq<LinkPair>) -> Seq<
    char,
> {
    match lookup(ex, r) {
        Some(s) => s,
        None => match lookup(batch, r) {
            Some(s) => s,
            None => r,
        },
    }
}

/// `s` without repeats, each element where it first occurs.
pub open spec fn dedup(s: Seq<Seq<char>>) -> Seq<Seq<char>>
    decreases s.len(),
{
    if s.len() == 0 {
        s
    } else {
        let d = dedup(s.drop_last());
        if d.contains(s.last()) {
            d
        } else {
            d.push(s.last())
        }
    }
}

/// Each entry normalized, then repeats dropped.
pub open spec fn normalized(rel: Seq<Seq<char>>, ex: Seq<LinkPair>, batch: Seq<LinkPair>) -> Seq<
    Seq<char>,
> {
    dedup(rel.map_values(|r: Seq<char>| normalize_entry(r, ex, batch)))
}

/// The tags of each note of a batch.
pub open spec fn batch_tags(notes: Seq<NoteView>) -> Seq<Seq<Seq<char>>> {
    notes.map_values(|n: NoteView| n.tags)
}

/// Note `i` of a batch after link resolution.
pub open spec fn resolved_note(notes: Seq<NoteView>, i: int, ex: Seq<LinkPair>) -> NoteView {
    let n = notes[i];
    let batch = batch_links(notes);
    NoteView {
        content: relink_siblings(link_existing_all(n.content, ex), batch, i),
        related_notes: normalized(
            add_sibling_links(n.related_notes, n.tags, batch, batch_tags(notes), i),
            ex,
            batch,
        ),
        ..n
    }
}

/// A whole batch after link resolution.
pub open spec fn resolve(notes: Seq<NoteView>, ex: Seq<LinkPair>) -> Seq<NoteView> {
    Seq::new(notes.len(), |i: int| resolved_note(notes, i, ex))
}


/// Exec titles and stems, as characters, that stand for `pairs`.
pub open spec fn chars_match(ts: Seq<Vec<char>>, ss: Seq<Vec<char>>, pairs: Seq<LinkPair>) -> bool {
    &&& ts.len() == pairs.len()
    &&& ss.len() == pairs.len()
    &&& forall|k: int| 0 <= k < pairs.len() ==> ts[k]@ == pairs[k].0 && ss[k]@ == pairs[k].1
}

/// Exec titles and stems, as strings, that stand for `pairs`.
pub open spec fn strs_match(ts: Seq<String>, ss: Seq<String>, pairs: Seq<LinkPair>) -> bool {
    &&& ts.len() == pairs.len()
    &&& ss.len() == pairs.len()
    &&& forall|k: int| 0 <= k < pairs.len() ==> ts[k]@ == pairs[k].0 && ss[k]@ == pairs[k].1
}

proof fn lemma_lookup_found(pairs: Seq<LinkPair>, key: Seq<char>, k: int)
    requires
        0 <= k < pairs.len(),
        pairs[k].0 == key,
        forall|m: int| 0 <= m < k ==> pairs[m].0 != key,
    ensures
        lookup(pairs, key) == Some(pairs[k].1),
    decreases k,
{
    if k > 0 {
        lemma_lookup_found(pairs.drop_first(), key, k - 1);
    }
}

proof fn lemma_lookup_absent(pairs: Seq<LinkPair>, key: Seq<char>)
    requires
        forall|m: int| 0 <= m < pairs.len() ==> pairs[m].0 != key,
    ensures
        lookup(pairs, key) is None,
    decreases pairs.len(),
{
    if pairs.len() > 0 {
        lemma_lookup_absent(pairs.drop_first(), key);
    }
}

/// The wiki-link `[[s]]`.
fn link_chars(s: &Vec<char>) -> (r: Vec<char>)
    ensures
        r@ == link(s@),
{
    let mut r: Vec<char> = Vec::new();
    r.push('[');
    r.push('[');
    push_all(&mut r, s);
    r.push(']');
    r.push(']');
    assert(r@ =~= link(s@));
    r
}

/// The links of all existing notes applied to `c`.
fn apply_existing(
    c0: Vec<char>,
    titles: &Vec<Vec<char>>,
    stems: &Vec<Vec<char>>,
    Ghost(ex): Ghost<Seq<LinkPair>>,
) -> (r: Vec<char>)
    requires
        chars_match(titles@, stems@, ex),
    ensures
        r@ == link_existing_all(c0@, ex),
{
    let mut c = c0;
    let mut k: usize = 0;
    assert(ex.subrange(0, 0) =~= Seq::<LinkPair>::empty());
    while k < titles.len()
        invariant
            chars_match(titles@, stems@, ex),
            k <= titles.len(),
            c@ == link_existing_all(c0@, ex.subrange(0, k as int)),
        decreases titles.len() - k,
    {
        assert(ex.subrange(0, k + 1).drop_last() =~= ex.subrange(0, k as int));
        let sl = link_chars(&stems[k]);
        if !contains_chars(&c, &sl) {
            let tl = link_chars(&titles[k]);
            if contains_chars(&c, &tl) {
                c = replace_chars(&c, &tl, &sl);
            } else if contains_chars(&c, &titles[k]) {
                c = replace_chars(&c, &titles[k], &sl);
            }
        }
        k += 1;
    }
    assert(ex.subrange(0, k as int) =~= ex);
    c
}

/// The title links of the siblings of note `i` rewritten to stem links.
fn apply_siblings(
    c0: Vec<char>,
    titles: &Vec<Vec<char>>,
    stems: &Vec<Vec<char>>,
    i: usize,
    Ghost(batch): Ghost<Seq<LinkPair>>,
) -> (r: Vec<char>)
    requires
        chars_match(titles@, stems@, batch),
    ensures
        r@ == relink_siblings(c0@, batch, i as int),
{
    let mut c = c0;
    let mut j: usize = 0;
    assert(batch.subrange(0, 0) =~= Seq::<LinkPair>::empty());
    while j < titles.len()
        invariant
            chars_match(titles@, stems@, batch),
            j <= titles.len(),
            c@ == relink_siblings(c0@, batch.subrange(0, j as int), i as int),
        decreases titles.len() - j,
    {
        assert(batch.subrange(0, j + 1).drop_last() =~= batch.subrange(0, j as int));
        if j != i {
            let tl = link_chars(&titles[j]);
            if contains_chars(&c, &tl) {
                let sl = link_chars(&stems[j]);
                c = replace_chars(&c, &tl, &sl);
            }
        }
        j += 1;
    }
    assert(batch.subrange(0, j as int) =~= batch);
    c
}

/// Whether `s` is one of `v`.
pub fn has_string(v: &Vec<String>, s: &String) -> (r: bool)
    ensures
        r == strs(v@).contains(s@),
{
    let mut k: usize = 0;
    while k < v.len()
        invariant
            k <= v.len(),
            forall|m: int| 0 <= m < k ==> v@[m]@ != s@,
        decreases v.len() - k,
    {
        if v[k] == *s {
            assert(strs(v@)[k as int] == s@);
            return true;
        }
        k += 1;
    }
    assert(!strs(v@).contains(s@)) by {
        if strs(v@).contains(s@) {
            let m = choose|m: int| 0 <= m < strs(v@).len() && strs(v@)[m] == s@;
            assert(v@[m]@ == s@);
        }
    }
    false
}

/// Whether two tag lists have a tag in common.
fn share_tag(a: &Vec<String>, b: &Vec<String>) -> (r: bool)
    ensures
        r == shares_tag(strs(a@), strs(b@)),
{
    let mut k: usize = 0;
    while k < a.len()
        invariant
            k <= a.len(),
            forall|m: int, l: int|
                0 <= m < k && 0 <= l < b.len() ==> strs(a@)[m] != strs(b@)[l],
        decreases a.len() - k,
    {
        if has_string(b, &a[k]) {
            let ghost l = choose|l: int| 0 <= l < strs(b@).len() && strs(b@)[l] == a@[k as int]@;
            assert(strs(a@)[k as int] == strs(b@)[l]);
            return true;
        }
        assert forall|l: int| 0 <= l < b.len() implies strs(a@)[k as int] != strs(b@)[l] by {
            if strs(a@)[k as int] == strs(b@)[l] {
                assert(strs(b@).contains(a@[k as int]@));
            }
        }
        k += 1;
    }
    false
}


/// `rel` with the stems of the tag-sharing siblings of note `i` appended.
fn add_links(
    rel0: Vec<String>,
    my_tags: &Vec<String>,
    stems: &Vec<String>,
    tags: &Vec<Vec<String>>,
    i: usize,
    Ghost(batch): Ghost<Seq<LinkPair>>,
    Ghost(btags): Ghost<Seq<Seq<Seq<char>>>>,
) -> (r: Vec<String>)
    requires
        stems@.len() == batch.len(),
        tags@.len() == batch.len(),
        btags.len() == batch.len(),
        forall|m: int| 0 <= m < batch.len() ==> stems@[m]@ == batch[m].1,
        forall|m: int| 0 <= m < batch.len() ==> strs(tags@[m]@) == btags[m],
    ensures
        strs(r@) == add_sibling_links(strs(rel0@), strs(my_tags@), batch, btags, i as int),
{
    let mut rel = rel0;
    let mut j: usize = 0;
    assert(batch.subrange(0, 0) =~= Seq::<LinkPair>::empty());
    while j < stems.len()
        invariant
            stems@.len() == batch.len(),
            tags@.len() == batch.len(),
            btags.len() == batch.len(),
            forall|m: int| 0 <= m < batch.len() ==> stems@[m]@ == batch[m].1,
            forall|m: int| 0 <= m < batch.len() ==> strs(tags@[m]@) == btags[m],
            j <= stems.len(),
            strs(rel@) == add_sibling_links(
                strs(rel0@),
                strs(my_tags@),
                batch.subrange(0, j as int),
                btags,
                i as int,
            ),
        decreases stems.len() - j,
    {
        let ghost prev = rel@;
        assert(batch.subrange(0, j + 1).drop_last() =~= batch.subrange(0, j as int));
        if j != i && share_tag(my_tags, &tags[j]) && !has_string(&rel, &stems[j]) {
            rel.push(stems[j].clone());
            assert(strs(rel@) =~= strs(prev).push(stems@[j as int]@));
        }
        j += 1;
    }
    assert(batch.subrange(0, j as int) =~= batch);
    rel
}

/// The position of the first of `keys` equal to `key`.
fn find_first(keys: &Vec<String>, key: &String) -> (r: Option<usize>)
    ensures
        match r {
            Some(k) => k < keys.len() && keys@[k as int]@ == key@ && forall|m: int|
                0 <= m < k ==> keys@[m]@ != key@,
            None => forall|m: int| 0 <= m < keys.len() ==> keys@[m]@ != key@,
        },
{
    let mut k: usize = 0;
    while k < keys.len()
        invariant
            k <= keys.len(),
            forall|m: int| 0 <= m < k ==> keys@[m]@ != key@,
        decreases keys.len() - k,
    {
        if keys[k] == *key {
            return Some(k);
        }
        k += 1;
    }
    None
}

/// The stem that the first of `titles` equal to `key` gives.
fn lookup_exec(
    titles: &Vec<String>,
    stems: &Vec<String>,
    key: &String,
    Ghost(pairs): Ghost<Seq<LinkPair>>,
) -> (r: Option<String>)
    requires
        strs_match(titles@, stems@, pairs),
    ensures
        match r {
            Some(s) => lookup(pairs, key@) == Some(s@),
            None => lookup(pairs, key@) is None,
        },
{
    match find_first(titles, key) {
        Some(k) => {
            proof {
                lemma_lookup_found(pairs, key@, k as int);
            }
            Some(stems[k].clone())
        },
        None => {
            proof {
                lemma_lookup_absent(pairs, key@);
            }
            None
        },
    }
}

/// One `related_notes` entry as a stem.
fn normalize_one(
    r: &String,
    ex_titles: &Vec<String>,
    ex_stems: &Vec<String>,
    b_titles: &Vec<String>,
    b_stems: &Vec<String>,
    Ghost(ex): Ghost<Seq<LinkPair>>,
    Ghost(batch): Ghost<Seq<LinkPair>>,
) -> (n: String)
    requires
        strs_match(ex_titles@, ex_stems@, ex),
        strs_match(b_titles@, b_stems@, batch),
    ensures
        n@ == normalize_entry(r@, ex, batch),
{
    match lookup_exec(ex_titles, ex_stems, r, Ghost(ex)) {
        Some(s) => s,
        None => match lookup_exec(b_titles, b_stems, r, Ghost(batch)) {
            Some(s) => s,
            None => r.clone(),
        },
    }
}

/// Every entry normalized, repeats dropped.
fn normalize_related(
    rel: &Vec<String>,
    ex_titles: &Vec<String>,
    ex_stems: &Vec<String>,
    b_titles: &Vec<String>,
    b_stems: &Vec<String>,
    Ghost(ex): Ghost<Seq<LinkPair>>,
    Ghost(batch): Ghost<Seq<LinkPair>>,
) -> (r: Vec<String>)
    requires
        strs_match(ex_titles@, ex_stems@, ex),
        strs_match(b_titles@, b_stems@, batch),
    ensures
        strs(r@) == normalized(strs(rel@), ex, batch),
{
    let ghost mapped = strs(rel@).map_values(|r: Seq<char>| normalize_entry(r, ex, batch));
    let mut fixed: Vec<String> = Vec::new();
    let mut k: usize = 0;
    assert(mapped.subrange(0, 0) =~= Seq::<Seq<char>>::empty());
    assert(strs(fixed@) =~= Seq::<Seq<char>>::empty());
    while k < rel.len()
        invariant
            strs_match(ex_titles@, ex_stems@, ex),
            strs_match(b_titles@, b_stems@, batch),
            mapped == strs(rel@).map_values(|r: Seq<char>| normalize_entry(r, ex, batch)),
            k <= rel.len(),
            strs(fixed@) == dedup(mapped.subrange(0, k as int)),
        decreases rel.len() - k,
    {
        let ghost prev = fixed@;
        assert(mapped.subrange(0, k + 1).drop_last() =~= mapped.subrange(0, k as int));
        let n = normalize_one(&rel[k], ex_titles, ex_stems, b_titles, b_stems, Ghost(ex), Ghost(batch));
        assert(mapped[k as int] == n@);
        if !has_string(&fixed, &n) {
            fixed.push(n);
            assert(strs(fixed@) =~= strs(prev).push(mapped[k as int]));
        }
        k += 1;
    }
    assert(mapped.subrange(0, k as int) =~= mapped);
    fixed
}

/// Rewrites a batch of generated notes so that all cross-references use
/// canonical stems: mentions of existing notes become stem links, title links
/// to siblings become stem links, siblings sharing a tag are added to
/// `related_notes`, and `related_notes` is normalized to stems without repeats.
pub fn resolve_links(notes: Vec<Note>, existing_notes: &[NoteMeta]) -> (r: Vec<Note>)
    ensures
        views(r@) == resolve(views(notes@), existing_links(existing_notes@)),
{
    let ghost ex = existing_links(existing_notes@);
    let ghost nv = views(notes@);
    let ghost batch = batch_links(nv);
    let ghost btags = batch_tags(nv);

    let mut ex_tc: Vec<Vec<char>> = Vec::new();
    let mut ex_sc: Vec<Vec<char>> = Vec::new();
    let mut ex_ts: Vec<String> = Vec::new();
    let mut ex_ss: Vec<String> = Vec::new();
    let mut k: usize = 0;
    while k < existing_notes.len()
        invariant
            ex == existing_links(existing_notes@),
            k <= existing_notes.len(),
            chars_match(ex_tc@, ex_sc@, ex.subrange(0, k as int)),
            strs_match(ex_ts@, ex_ss@, ex.subrange(0, k as int)),
        decreases existing_notes.len() - k,
    {
        let t = chars_of(existing_notes[k].title.as_str());
        let f = chars_of(existing_notes[k].filename.as_str());
        let st = strip_md_chars(&f);
        ex_ts.push(existing_notes[k].title.clone());
        ex_ss.push(string_of(&st));
        ex_tc.push(t);
        ex_sc.push(st);
        k += 1;
    }
    assert(ex.subrange(0, k as int) =~= ex);

    let mut b_tc: Vec<Vec<char>> = Vec::new();
    let mut b_sc: Vec<Vec<char>> = Vec::new();
    let mut b_ts: Vec<String> = Vec::new();
    let mut b_ss: Vec<String> = Vec::new();
    let mut b_tags: Vec<Vec<String>> = Vec::new();
    let mut j: usize = 0;
    while j < notes.len()
        invariant
            nv == views(notes@),
            batch == batch_links(nv),
            btags == batch_tags(nv),
            j <= notes.len(),
            chars_match(b_tc@, b_sc@, batch.subrange(0, j as int)),
            strs_match(b_ts@, b_ss@, batch.subrange(0, j as int)),
            b_tags@.len() == j,
            forall|m: int| 0 <= m < j ==> strs(b_tags@[m]@) == btags[m],
        decreases notes.len() - j,
    {
        let t = chars_of(notes[j].title.as_str());
        let st = stem_chars(notes[j].title.as_str());
        b_ts.push(notes[j].title.clone());
        b_ss.push(string_of(&st));
        b_tc.push(t);
        b_sc.push(st);
        b_tags.push(clone_strings(&notes[j].tags));
        j += 1;
    }
    assert(batch.subrange(0, j as int) =~= batch);

    let mut out: Vec<Note> = Vec::new();
    let mut i: usize = 0;
    while i < notes.len()
        invariant
            nv == views(notes@),
            batch == batch_links(nv),
            btags == batch_tags(nv),
            ex == existing_links(existing_notes@),
            chars_match(ex_tc@, ex_sc@, ex),
            strs_match(ex_ts@, ex_ss@, ex),
            chars_match(b_tc@, b_sc@, batch),
            strs_match(b_ts@, b_ss@, batch),
            b_tags@.len() == notes.len(),
            forall|m: int| 0 <= m < notes.len() ==> strs(b_tags@[m]@) == btags[m],
            i <= notes.len(),
            out@.len() == i,
            forall|m: int| 0 <= m < i ==> out@[m]@ == resolved_note(nv, m, ex),
        decreases notes.len() - i,
    {
        let n = &notes[i];
        let c = chars_of(n.content.as_str());
        let c = apply_existing(c, &ex_tc, &ex_sc, Ghost(ex));
        let c = apply_siblings(c, &b_tc, &b_sc, i, Ghost(batch));
        let rel = add_links(
            clone_strings(&n.related_notes),
            &n.tags,
            &b_ss,
            &b_tags,
            i,
            Ghost(batch),
            Ghost(btags),
        );
        let rel = normalize_related(&rel, &ex_ts, &ex_ss, &b_ts, &b_ss, Ghost(ex), Ghost(batch));
        let note = Note {
            title: n.title.clone(),
            content: string_of(&c),
            tags: clone_strings(&n.tags),
            date: n.date,
            source: n.source.clone(),
            related_notes: rel,
        };
        assert(note@ == resolved_note(nv, i as int, ex));
        out.push(note);
        i += 1;
    }
    assert(views(out@) =~= resolve(nv, ex));
    out
}


proof fn lemma_dedup_contains(s: Seq<Seq<char>>, x: Seq<char>)
    ensures
        dedup(s).contains(x) <==> s.contains(x),
    decreases s.len(),
{
    if s.len() > 0 {
        lemma_dedup_contains(s.drop_last(), x);
        let d = dedup(s.drop_last());
        if s.drop_last().contains(x) {
            let k = choose|k: int| 0 <= k < s.drop_last().len() && s.drop_last()[k] == x;
            assert(s[k] == x);
        }
        if s.contains(x) {
            let k = choose|k: int| 0 <= k < s.len() && s[k] == x;
            if k < s.len() - 1 {
                assert(s.drop_last()[k] == x);
            }
        }
        if !d.contains(s.last()) {
            assert(d.push(s.last())[d.len() as int] == s.last());
            if d.push(s.last()).contains(x) {
                let k = choose|k: int| 0 <= k < d.push(s.last()).len() && d.push(s.last())[k] == x;
                if k < d.len() {
                    assert(d[k] == x);
                }
            }
            if d.contains(x) {
                let k = choose|k: int| 0 <= k < d.len() && d[k] == x;
                assert(d.push(s.last())[k] == x);
            }
        }
    }
}

proof fn lemma_add_links_keeps(
    rel: Seq<Seq<char>>,
    my_tags: Seq<Seq<char>>,
    batch: Seq<LinkPair>,
    tags: Seq<Seq<Seq<char>>>,
    i: int,
    x: Seq<char>,
)
    requires
        rel.contains(x),
    ensures
        add_sibling_links(rel, my_tags, batch, tags, i).contains(x),
    decreases batch.len(),
{
    if batch.len() > 0 {
        lemma_add_links_keeps(rel, my_tags, batch.drop_last(), tags, i, x);
        let prev = add_sibling_links(rel, my_tags, batch.drop_last(), tags, i);
        let k = choose|k: int| 0 <= k < prev.len() && prev[k] == x;
        assert(prev.push(batch.last().1)[k] == x);
    }
}

proof fn lemma_add_links_adds(
    rel: Seq<Seq<char>>,
    my_tags: Seq<Seq<char>>,
    batch: Seq<LinkPair>,
    tags: Seq<Seq<Seq<char>>>,
    i: int,
    j: int,
)
    requires
        0 <= j < batch.len(),
        j != i,
        shares_tag(my_tags, tags[j]),
    ensures
        add_sibling_links(rel, my_tags, batch, tags, i).contains(batch[j].1),
    decreases batch.len(),
{
    let prev = add_sibling_links(rel, my_tags, batch.drop_last(), tags, i);
    if j == batch.len() - 1 {
        if !prev.contains(batch[j].1) {
            assert(prev.push(batch[j].1)[prev.len() as int] == batch[j].1);
        }
    } else {
        lemma_add_links_adds(rel, my_tags, batch.drop_last(), tags, i, j);
        assert(batch.drop_last()[j] == batch[j]);
        let k = choose|k: int| 0 <= k < prev.len() && prev[k] == batch[j].1;
        assert(prev.push(batch.last().1)[k] == batch[j].1);
    }
}

proof fn lemma_add_links_origin(
    rel: Seq<Seq<char>>,
    my_tags: Seq<Seq<char>>,
    batch: Seq<LinkPair>,
    tags: Seq<Seq<Seq<char>>>,
    i: int,
    x: Seq<char>,
)
    requires
        add_sibling_links(rel, my_tags, batch, tags, i).contains(x),
    ensures
        rel.contains(x) || exists|m: int|
            0 <= m < batch.len() && m != i && shares_tag(my_tags, tags[m]) && #[trigger] batch[m].1
                == x,
    decreases batch.len(),
{
    if batch.len() > 0 {
        let j = batch.len() - 1;
        let prev = add_sibling_links(rel, my_tags, batch.drop_last(), tags, i);
        if prev.contains(x) {
            lemma_add_links_origin(rel, my_tags, batch.drop_last(), tags, i, x);
            if !rel.contains(x) {
                let m = choose|m: int|
                    0 <= m < batch.drop_last().len() && m != i && shares_tag(my_tags, tags[m])
                        && #[trigger] batch.drop_last()[m].1 == x;
                assert(batch[m].1 == x);
            }
        } else {
            let k = choose|k: int|
                0 <= k < prev.push(batch[j].1).len() && prev.push(batch[j].1)[k] == x;
            if k < prev.len() {
                assert(prev[k] == x);
            }
        }
    }
}

proof fn lemma_map_contains(rel: Seq<Seq<char>>, ex: Seq<LinkPair>, batch: Seq<LinkPair>, x: Seq<char>)
    requires
        rel.contains(x),
    ensures
        rel.map_values(|r: Seq<char>| normalize_entry(r, ex, batch)).contains(
            normalize_entry(x, ex, batch),
        ),
{
    let k = choose|k: int| 0 <= k < rel.len() && rel[k] == x;
    assert(rel.map_values(|r: Seq<char>| normalize_entry(r, ex, batch))[k] == normalize_entry(
        x,
        ex,
        batch,
    ));
}

/// Two sibling notes that share a tag each list the other's stem in
/// `related_notes` after one pass, provided neither stem is itself the title
/// of another note (which would send it to that note's stem).
pub proof fn lemma_tag_sharing_siblings_link_both_ways(
    notes: Seq<NoteView>,
    ex: Seq<LinkPair>,
    i: int,
    j: int,
)
    requires
        0 <= i < notes.len(),
        0 <= j < notes.len(),
        i != j,
        shares_tag(notes[i].tags, notes[j].tags),
        normalize_entry(stem_of(notes[i].title), ex, batch_links(notes)) == stem_of(
            notes[i].title,
        ),
        normalize_entry(stem_of(notes[j].title), ex, batch_links(notes)) == stem_of(
            notes[j].title,
        ),
    ensures
        resolve(notes, ex)[i].related_notes.contains(stem_of(notes[j].title)),
        resolve(notes, ex)[j].related_notes.contains(stem_of(notes[i].title)),
{
    let batch = batch_links(notes);
    let tags = batch_tags(notes);
    assert(batch[j].1 == stem_of(notes[j].title));
    assert(batch[i].1 == stem_of(notes[i].title));
    assert(tags[j] == notes[j].tags);
    assert(tags[i] == notes[i].tags);
    assert(shares_tag(notes[j].tags, notes[i].tags)) by {
        let (k, l) = choose|k: int, l: int|
            0 <= k < notes[i].tags.len() && 0 <= l < notes[j].tags.len() && #[trigger] notes[i].tags[k]
                == #[trigger] notes[j].tags[l];
        assert(notes[j].tags[l] == notes[i].tags[k]);
    }
    let add_i = add_sibling_links(notes[i].related_notes, notes[i].tags, batch, tags, i);
    let add_j = add_sibling_links(notes[j].related_notes, notes[j].tags, batch, tags, j);
    lemma_add_links_adds(notes[i].related_notes, notes[i].tags, batch, tags, i, j);
    lemma_add_links_adds(notes[j].related_notes, notes[j].tags, batch, tags, j, i);
    lemma_map_contains(add_i, ex, batch, batch[j].1);
    lemma_map_contains(add_j, ex, batch, batch[i].1);
    lemma_dedup_contains(
        add_i.map_values(|r: Seq<char>| normalize_entry(r, ex, batch)),
        stem_of(notes[j].title),
    );
    lemma_dedup_contains(
        add_j.map_values(|r: Seq<char>| normalize_entry(r, ex, batch)),
        stem_of(notes[i].title),
    );
}

/// A sibling whose tags are disjoint from note `i`'s never enters note `i`'s
/// `related_notes`, provided nothing else in the input names its stem: no
/// entry of note `i`'s own `related_notes`, and no tag-sharing sibling whose
/// stem normalizes to it.
pub proof fn lemma_no_link_without_shared_tag(
    notes: Seq<NoteView>,
    ex: Seq<LinkPair>,
    i: int,
    j: int,
)
    requires
        0 <= i < notes.len(),
        0 <= j < notes.len(),
        i != j,
        !shares_tag(notes[i].tags, notes[j].tags),
        forall|k: int|
            0 <= k < notes[i].related_notes.len() ==> normalize_entry(
                #[trigger] notes[i].related_notes[k],
                ex,
                batch_links(notes),
            ) != stem_of(notes[j].title),
        forall|m: int|
            0 <= m < notes.len() && m != i && shares_tag(notes[i].tags, #[trigger] notes[m].tags)
                ==> normalize_entry(stem_of(notes[m].title), ex, batch_links(notes)) != stem_of(
                notes[j].title,
            ),
    ensures
        !resolve(notes, ex)[i].related_notes.contains(stem_of(notes[j].title)),
{
    let batch = batch_links(notes);
    let tags = batch_tags(notes);
    let sj = stem_of(notes[j].title);
    let add_i = add_sibling_links(notes[i].related_notes, notes[i].tags, batch, tags, i);
    let mapped = add_i.map_values(|r: Seq<char>| normalize_entry(r, ex, batch));
    lemma_dedup_contains(mapped, sj);
    if mapped.contains(sj) {
        let p = choose|p: int| 0 <= p < mapped.len() && mapped[p] == sj;
        let y = add_i[p];
        assert(add_i.contains(y));
        lemma_add_links_origin(notes[i].related_notes, notes[i].tags, batch, tags, i, y);
        if notes[i].related_notes.contains(y) {
            let k = choose|k: int|
                0 <= k < notes[i].related_notes.len() && notes[i].related_notes[k] == y;
            assert(normalize_entry(notes[i].related_notes[k], ex, batch) != sj);
        } else {
            let m = choose|m: int|
                0 <= m < batch.len() && m != i && shares_tag(notes[i].tags, tags[m])
                    && #[trigger] batch[m].1 == y;
            assert(tags[m] == notes[m].tags);
            assert(batch[m].1 == stem_of(notes[m].title));
        }
    }
}

/// A `related_notes` entry that is an existing note's title becomes that
/// note's stem; an entry that is no note's title stays as it is.
pub proof fn lemma_related_titles_become_stems(
    notes: Seq<NoteView>,
    ex: Seq<LinkPair>,
    i: int,
    r: Seq<char>,
)
    requires
        0 <= i < notes.len(),
        notes[i].related_notes.contains(r),
    ensures
        lookup(ex, r) matches Some(s) ==> resolve(notes, ex)[i].related_notes.contains(s),
        lookup(ex, r) is None && lookup(batch_links(notes), r) is None ==> resolve(
            notes,
            ex,
        )[i].related_notes.contains(r),
{
    let batch = batch_links(notes);
    let tags = batch_tags(notes);
    let add_i = add_sibling_links(notes[i].related_notes, notes[i].tags, batch, tags, i);
    lemma_add_links_keeps(notes[i].related_notes, notes[i].tags, batch, tags, i, r);
    lemma_map_contains(add_i, ex, batch, r);
    lemma_dedup_contains(
        add_i.map_values(|x: Seq<char>| normalize_entry(x, ex, batch)),
        normalize_entry(r, ex, batch),
    );
}

/// Every stem, of an existing note or of the batch, is left as it is by
/// normalization: no stem is also the title of a note with another stem.
pub open spec fn stems_are_canonical(notes: Seq<NoteView>, ex: Seq<LinkPair>) -> bool {
    let batch = batch_links(notes);
    &&& forall|k: int| 0 <= k < ex.len() ==> normalize_entry(#[trigger] ex[k].1, ex, batch) == ex[k].1
    &&& forall|j: int|
        0 <= j < batch.len() ==> normalize_entry(#[trigger] batch[j].1, ex, batch) == batch[j].1
}

/// No element occurs twice.
pub open spec fn no_repeats(s: Seq<Seq<char>>) -> bool {
    forall|a: int, b: int| 0 <= a < b < s.len() ==> s[a] != s[b]
}

proof fn lemma_lookup_gives_a_stem(pairs: Seq<LinkPair>, key: Seq<char>)
    requires
        lookup(pairs, key) is Some,
    ensures
        exists|k: int| 0 <= k < pairs.len() && #[trigger] pairs[k].1 == lookup(pairs, key)->0,
    decreases pairs.len(),
{
    if pairs[0].0 != key {
        lemma_lookup_gives_a_stem(pairs.drop_first(), key);
        let k = choose|k: int|
            0 <= k < pairs.drop_first().len() && #[trigger] pairs.drop_first()[k].1 == lookup(
                pairs,
                key,
            )->0;
        assert(pairs[k + 1].1 == lookup(pairs, key)->0);
    }
}

proof fn lemma_normalized_is_fixed(notes: Seq<NoteView>, ex: Seq<LinkPair>, y: Seq<char>)
    requires
        stems_are_canonical(notes, ex),
    ensures
        ({
            let batch = batch_links(notes);
            normalize_entry(normalize_entry(y, ex, batch), ex, batch) == normalize_entry(
                y,
                ex,
                batch,
            )
        }),
{
    let batch = batch_links(notes);
    if lookup(ex, y) is Some {
        lemma_lookup_gives_a_stem(ex, y);
    } else if lookup(batch, y) is Some {
        lemma_lookup_gives_a_stem(batch, y);
    }
}

proof fn lemma_dedup_no_repeats(s: Seq<Seq<char>>)
    ensures
        no_repeats(dedup(s)),
    decreases s.len(),
{
    if s.len() > 0 {
        lemma_dedup_no_repeats(s.drop_last());
        let d = dedup(s.drop_last());
        if !d.contains(s.last()) {
            assert forall|a: int, b: int| 0 <= a < b < d.push(s.last()).len() implies d.push(
                s.last(),
            )[a] != d.push(s.last())[b] by {
                if b == d.len() {
                    assert(d[a] == d.push(s.last())[a]);
                }
            }
        }
    }
}

proof fn lemma_dedup_of_no_repeats(s: Seq<Seq<char>>)
    requires
        no_repeats(s),
    ensures
        dedup(s) == s,
    decreases s.len(),
{
    if s.len() > 0 {
        assert(no_repeats(s.drop_last()));
        lemma_dedup_of_no_repeats(s.drop_last());
        if s.drop_last().contains(s.last()) {
            let k = choose|k: int| 0 <= k < s.drop_last().len() && s.drop_last()[k] == s.last();
            assert(s[k] == s[s.len() - 1]);
        }
        assert(s.drop_last().push(s.last()) =~= s);
    }
}

proof fn lemma_add_links_nothing_new(
    rel: Seq<Seq<char>>,
    my_tags: Seq<Seq<char>>,
    batch: Seq<LinkPair>,
    tags: Seq<Seq<Seq<char>>>,
    i: int,
)
    requires
        forall|j: int|
            0 <= j < batch.len() && j != i && shares_tag(my_tags, #[trigger] tags[j]) ==> rel.contains(
                batch[j].1,
            ),
    ensures
        add_sibling_links(rel, my_tags, batch, tags, i) == rel,
    decreases batch.len(),
{
    if batch.len() > 0 {
        lemma_add_links_nothing_new(rel, my_tags, batch.drop_last(), tags, i);
    }
}

/// A second pass of link resolution leaves each note's `related_notes`, and
/// its title, tags, date and source, as the first pass made them, provided
/// every stem is canonical.
proof fn lemma_second_pass_keeps_related_notes(notes: Seq<NoteView>, ex: Seq<LinkPair>, i: int)
    requires
        0 <= i < notes.len(),
        stems_are_canonical(notes, ex),
    ensures
        ({
            let once = resolve(notes, ex);
            let twice = resolve(once, ex);
            &&& twice.len() == once.len()
            &&& twice[i].related_notes == once[i].related_notes
            &&& twice[i].title == once[i].title
            &&& twice[i].tags == once[i].tags
            &&& twice[i].date == once[i].date
            &&& twice[i].source == once[i].source
        }),
{
    let once = resolve(notes, ex);
    let batch = batch_links(notes);
    let tags = batch_tags(notes);
    assert(batch_links(once) =~= batch);
    assert(batch_tags(once) =~= tags);
    let add1 = add_sibling_links(notes[i].related_notes, notes[i].tags, batch, tags, i);
    let mapped1 = add1.map_values(|r: Seq<char>| normalize_entry(r, ex, batch));
    let rel1 = dedup(mapped1);
    assert(once[i].related_notes == rel1);
    assert(once[i].tags == notes[i].tags);
    // every entry after the first pass is a fixed point of normalization
    assert forall|p: int| 0 <= p < rel1.len() implies normalize_entry(#[trigger] rel1[p], ex, batch)
        == rel1[p] by {
        assert(rel1.contains(rel1[p]));
        lemma_dedup_contains(mapped1, rel1[p]);
        let q = choose|q: int| 0 <= q < mapped1.len() && mapped1[q] == rel1[p];
        lemma_normalized_is_fixed(notes, ex, add1[q]);
    }
    // every tag-sharing sibling is already there
    assert forall|j: int|
        0 <= j < batch.len() && j != i && shares_tag(notes[i].tags, #[trigger] tags[j]) implies rel1.contains(
        batch[j].1,
    ) by {
        lemma_add_links_adds(notes[i].related_notes, notes[i].tags, batch, tags, i, j);
        lemma_map_contains(add1, ex, batch, batch[j].1);
        assert(normalize_entry(batch[j].1, ex, batch) == batch[j].1);
        lemma_dedup_contains(mapped1, batch[j].1);
    }
    lemma_add_links_nothing_new(rel1, notes[i].tags, batch, tags, i);
    assert(rel1.map_values(|r: Seq<char>| normalize_entry(r, ex, batch)) =~= rel1);
    lemma_dedup_no_repeats(mapped1);
    lemma_dedup_of_no_repeats(rel1);
}

/// No name of one note lies inside a name of the other.
pub open spec fn apart(a: LinkPair, b: LinkPair) -> bool {
    &&& !contains_seq(b.0, a.0)
    &&& !contains_seq(b.1, a.0)
    &&& !contains_seq(b.0, a.1)
    &&& !contains_seq(b.1, a.1)
}

/// Every title and stem, of the existing notes and of the batch, is a
/// bracket-free non-empty name, and no name of one note lies inside a name of
/// another.
pub open spec fn names_apart(ex: Seq<LinkPair>, batch: Seq<LinkPair>) -> bool {
    &&& forall|k: int| 0 <= k < ex.len() ==> plain_name(#[trigger] ex[k].0) && plain_name(ex[k].1)
    &&& forall|j: int|
        0 <= j < batch.len() ==> plain_name(#[trigger] batch[j].0) && plain_name(batch[j].1)
    &&& forall|k: int, l: int|
        0 <= k < ex.len() && 0 <= l < ex.len() && k != l ==> apart(#[trigger] ex[k], #[trigger] ex[l])
    &&& forall|j: int, l: int|
        0 <= j < batch.len() && 0 <= l < batch.len() && j != l ==> apart(
            #[trigger] batch[j],
            #[trigger] batch[l],
        )
    &&& forall|k: int, j: int|
        0 <= k < ex.len() && 0 <= j < batch.len() ==> apart(#[trigger] ex[k], #[trigger] batch[j])
            && apart(batch[j], ex[k])
}

/// For the first `upto` existing notes, the content links the stem or never
/// mentions the title.
pub open spec fn existing_settled(c: Seq<char>, ex: Seq<LinkPair>, upto: int) -> bool {
    forall|k: int|
        0 <= k < upto ==> contains_seq(c, link(#[trigger] ex[k].1)) || !contains_seq(c, ex[k].0)
}

/// For the first `upto` siblings of note `i`, the content holds no title
/// link that differs from the stem link.
pub open spec fn siblings_settled(c: Seq<char>, batch: Seq<LinkPair>, i: int, upto: int) -> bool {
    forall|j: int|
        0 <= j < upto && j != i ==> !contains_seq(c, link(#[trigger] batch[j].0)) || batch[j].0
            == batch[j].1
}

proof fn lemma_contains_self(x: Seq<char>)
    ensures
        contains_seq(x, x),
{
    assert(x.subrange(0, x.len() as int) =~= x);
    assert(occurs_at(x, x, 0));
}

proof fn lemma_link_len(x: Seq<char>)
    ensures
        link(x).len() == x.len() + 4,
{
}

proof fn lemma_existing_step(c: Seq<char>, ex: Seq<LinkPair>, batch: Seq<LinkPair>, m: int)
    requires
        names_apart(ex, batch),
        0 <= m < ex.len(),
        existing_settled(c, ex, m),
    ensures
        existing_settled(link_existing(c, ex[m].0, ex[m].1), ex, m + 1),
{
    let t = ex[m].0;
    let s = ex[m].1;
    let c2 = link_existing(c, t, s);
    lemma_link_len(t);
    lemma_link_len(s);
    if !contains_seq(c, link(s)) && (contains_seq(c, link(t)) || contains_seq(c, t)) {
        let p = if contains_seq(c, link(t)) {
            link(t)
        } else {
            t
        };
        assert(c2 == replace_all(c, p, link(s)));
        lemma_replace_inserts(c, p, link(s));
        assert forall|k: int| 0 <= k < m + 1 implies contains_seq(c2, link(#[trigger] ex[k].1))
            || !contains_seq(c2, ex[k].0) by {
            if k < m {
                assert(apart(ex[m], ex[k]));
                assert(apart(ex[k], ex[m]));
                if contains_seq(c, link(ex[k].1)) {
                    lemma_link_len(ex[k].1);
                    if p == link(t) {
                        if t == ex[k].1 {
                            lemma_contains_self(t);
                        }
                        lemma_links_never_touch(t, ex[k].1);
                    } else {
                        lemma_plain_never_touches_link(t, ex[k].1);
                    }
                    lemma_replace_keeps(c, p, link(s), link(ex[k].1));
                } else {
                    lemma_plain_never_touches_link(ex[k].0, s);
                    lemma_replace_no_new(c, p, link(s), ex[k].0);
                }
            }
        }
    }
}

proof fn lemma_existing_all(c: Seq<char>, ex: Seq<LinkPair>, batch: Seq<LinkPair>, m: int)
    requires
        names_apart(ex, batch),
        0 <= m <= ex.len(),
    ensures
        existing_settled(link_existing_all(c, ex.subrange(0, m)), ex, m),
    decreases m,
{
    if m > 0 {
        lemma_existing_all(c, ex, batch, m - 1);
        assert(ex.subrange(0, m).drop_last() =~= ex.subrange(0, m - 1));
        lemma_existing_step(link_existing_all(c, ex.subrange(0, m - 1)), ex, batch, m - 1);
    }
}

proof fn lemma_sibling_step(
    c: Seq<char>,
    ex: Seq<LinkPair>,
    batch: Seq<LinkPair>,
    i: int,
    m: int,
)
    requires
        names_apart(ex, batch),
        0 <= m < batch.len(),
        m != i,
        existing_settled(c, ex, ex.len() as int),
        siblings_settled(c, batch, i, m),
    ensures
        existing_settled(relink_sibling(c, batch[m].0, batch[m].1), ex, ex.len() as int),
        siblings_settled(relink_sibling(c, batch[m].0, batch[m].1), batch, i, m + 1),
{
    let t = batch[m].0;
    let s = batch[m].1;
    let c2 = relink_sibling(c, t, s);
    lemma_link_len(t);
    lemma_link_len(s);
    if contains_seq(c, link(t)) {
        if t == s {
            lemma_replace_same(c, link(t));
        } else {
            lemma_links_never_touch(t, s);
            lemma_replace_removes(c, link(t), link(s));
            assert forall|j: int| 0 <= j < m + 1 && j != i implies !contains_seq(
                c2,
                link(#[trigger] batch[j].0),
            ) || batch[j].0 == batch[j].1 by {
                if j < m && batch[j].0 != batch[j].1 {
                    assert(apart(batch[j], batch[m]));
                    if batch[j].0 == s {
                        lemma_contains_self(s);
                    }
                    lemma_links_never_touch(batch[j].0, s);
                    lemma_link_len(batch[j].0);
                    lemma_replace_no_new(c, link(t), link(s), link(batch[j].0));
                }
            }
            assert forall|k: int| 0 <= k < ex.len() implies contains_seq(
                c2,
                link(#[trigger] ex[k].1),
            ) || !contains_seq(c2, ex[k].0) by {
                assert(apart(ex[k], batch[m]));
                assert(apart(batch[m], ex[k]));
                if contains_seq(c, link(ex[k].1)) {
                    if t == ex[k].1 {
                        lemma_contains_self(t);
                    }
                    lemma_links_never_touch(t, ex[k].1);
                    lemma_link_len(ex[k].1);
                    lemma_replace_keeps(c, link(t), link(s), link(ex[k].1));
                } else {
                    lemma_plain_never_touches_link(ex[k].0, s);
                    lemma_replace_no_new(c, link(t), link(s), ex[k].0);
                }
            }
        }
    }
}

proof fn lemma_siblings_all(
    c: Seq<char>,
    ex: Seq<LinkPair>,
    batch: Seq<LinkPair>,
    i: int,
    m: int,
)
    requires
        names_apart(ex, batch),
        0 <= m <= batch.len(),
        existing_settled(c, ex, ex.len() as int),
    ensures
        existing_settled(relink_siblings(c, batch.subrange(0, m), i), ex, ex.len() as int),
        siblings_settled(relink_siblings(c, batch.subrange(0, m), i), batch, i, m),
    decreases m,
{
    if m > 0 {
        lemma_siblings_all(c, ex, batch, i, m - 1);
        let pre = batch.subrange(0, m);
        assert(pre.drop_last() =~= batch.subrange(0, m - 1));
        assert(pre.last() == batch[m - 1]);
        let prev = relink_siblings(c, batch.subrange(0, m - 1), i);
        if m - 1 != i {
            lemma_sibling_step(prev, ex, batch, i, m - 1);
        }
    }
}

proof fn lemma_existing_noop(c: Seq<char>, ex: Seq<LinkPair>, m: int)
    requires
        0 <= m <= ex.len(),
        existing_settled(c, ex, ex.len() as int),
    ensures
        link_existing_all(c, ex.subrange(0, m)) == c,
    decreases m,
{
    if m > 0 {
        lemma_existing_noop(c, ex, m - 1);
        assert(ex.subrange(0, m).drop_last() =~= ex.subrange(0, m - 1));
        assert(ex.subrange(0, m).last() == ex[m - 1]);
        if !contains_seq(c, ex[m - 1].0) {
            if contains_seq(c, link(ex[m - 1].0)) {
                let k = choose|k: int| #[trigger] occurs_at(c, link(ex[m - 1].0), k);
                let t = ex[m - 1].0;
                let w = c.subrange(k + 2, k + 2 + t.len());
                assert forall|q: int| 0 <= q < t.len() implies #[trigger] w[q] == t[q] by {
                    assert(c.subrange(k, k + link(t).len())[q + 2] == link(t)[q + 2]);
                }
                assert(w =~= t);
                assert(occurs_at(c, ex[m - 1].0, k + 2));
            }
        }
    }
}

proof fn lemma_siblings_noop(c: Seq<char>, batch: Seq<LinkPair>, i: int, m: int)
    requires
        0 <= m <= batch.len(),
        siblings_settled(c, batch, i, batch.len() as int),
    ensures
        relink_siblings(c, batch.subrange(0, m), i) == c,
    decreases m,
{
    if m > 0 {
        lemma_siblings_noop(c, batch, i, m - 1);
        assert(batch.subrange(0, m).drop_last() =~= batch.subrange(0, m - 1));
        assert(batch.subrange(0, m).last() == batch[m - 1]);
        if m - 1 != i && contains_seq(c, link(batch[m - 1].0)) {
            lemma_link_len(batch[m - 1].0);
            lemma_replace_same(c, link(batch[m - 1].0));
        }
    }
}

/// After one pass, the content of each note is left as it is by a second
/// pass, provided the names of all notes are bracket-free, non-empty and apart.
proof fn lemma_second_pass_keeps_content(notes: Seq<NoteView>, ex: Seq<LinkPair>, i: int)
    requires
        0 <= i < notes.len(),
        names_apart(ex, batch_links(notes)),
    ensures
        resolve(resolve(notes, ex), ex)[i].content == resolve(notes, ex)[i].content,
{
    let once = resolve(notes, ex);
    let batch = batch_links(notes);
    assert(batch_links(once) =~= batch);
    let c0 = notes[i].content;
    lemma_existing_all(c0, ex, batch, ex.len() as int);
    assert(ex.subrange(0, ex.len() as int) =~= ex);
    let cb = link_existing_all(c0, ex);
    lemma_siblings_all(cb, ex, batch, i, batch.len() as int);
    assert(batch.subrange(0, batch.len() as int) =~= batch);
    let c1 = relink_siblings(cb, batch, i);
    assert(once[i].content == c1);
    lemma_existing_noop(c1, ex, ex.len() as int);
    lemma_siblings_noop(c1, batch, i, batch.len() as int);
}

proof fn lemma_apart_stems_canonical(notes: Seq<NoteView>, ex: Seq<LinkPair>)
    requires
        names_apart(ex, batch_links(notes)),
    ensures
        stems_are_canonical(notes, ex),
{
    let batch = batch_links(notes);
    assert forall|k: int| 0 <= k < ex.len() implies normalize_entry(#[trigger] ex[k].1, ex, batch)
        == ex[k].1 by {
        let key = ex[k].1;
        lemma_contains_self(key);
        assert forall|m: int| 0 <= m < ex.len() && m != k implies ex[m].0 != key by {
            assert(apart(ex[k], ex[m]));
        }
        assert forall|j: int| 0 <= j < batch.len() implies batch[j].0 != key by {
            assert(apart(ex[k], batch[j]));
        }
        lemma_lookup_absent(batch, key);
        if ex[k].0 == key {
            lemma_lookup_found(ex, key, k);
        } else {
            lemma_lookup_absent(ex, key);
        }
    }
    assert forall|j: int| 0 <= j < batch.len() implies normalize_entry(
        #[trigger] batch[j].1,
        ex,
        batch,
    ) == batch[j].1 by {
        let key = batch[j].1;
        lemma_contains_self(key);
        assert forall|k: int| 0 <= k < ex.len() implies ex[k].0 != key by {
            assert(apart(batch[j], ex[k]));
        }
        assert forall|m: int| 0 <= m < batch.len() && m != j implies batch[m].0 != key by {
            assert(apart(batch[j], batch[m]));
        }
        lemma_lookup_absent(ex, key);
        if batch[j].0 == key {
            lemma_lookup_found(batch, key, j);
        } else {
            lemma_lookup_absent(batch, key);
        }
    }
}

/// Link resolution is idempotent: a second pass over its output changes
/// nothing, provided every title and stem (of the existing notes and of the
/// batch) is a non-empty bracket-free name and no name of one note lies
/// inside a name of another.
pub proof fn lemma_resolution_idempotent(notes: Seq<NoteView>, ex: Seq<LinkPair>)
    requires
        names_apart(ex, batch_links(notes)),
    ensures
        resolve(resolve(notes, ex), ex) == resolve(notes, ex),
{
    let once = resolve(notes, ex);
    let twice = resolve(once, ex);
    lemma_apart_stems_canonical(notes, ex);
    assert forall|i: int| 0 <= i < once.len() implies twice[i] == once[i] by {
        lemma_second_pass_keeps_content(notes, ex, i);
        lemma_second_pass_keeps_related_notes(notes, ex, i);
    }
    assert(twice =~= once);
}

/// After link resolution no note lists a related note twice.
pub proof fn lemma_related_notes_have_no_repeats(notes: Seq<NoteView>, ex: Seq<LinkPair>, i: int)
    requires
        0 <= i < notes.len(),
    ensures
        no_repeats(resolve(notes, ex)[i].related_notes),
{
    let batch = batch_links(notes);
    let add_i = add_sibling_links(notes[i].related_notes, notes[i].tags, batch, batch_tags(notes), i);
    lemma_dedup_no_repeats(add_i.map_values(|r: Seq<char>| normalize_entry(r, ex, batch)));
}

} // verus!
