//! The index of existing notes: what a note's frontmatter says of it.
use vstd::prelude::*;
use crate::note::trim_start;
use crate::text::{chars_of, occurs_at, push_all, string_of};

verus! {

/// Metadata read from an existing note's frontmatter.
#[derive(Clone, Debug)]
pub struct NoteMeta {
    pub title: String,
    pub date: String,
    pub tags: Vec<String>,
    pub filename: String,
    pub source: String,
}

/// `f` without a trailing `.md`, when it has one.
pub open spec fn strip_md(f: Seq<char>) -> Seq<char> {
    if f.len() >= 3 && f.subrange(f.len() - 3, f.len() as int) == seq!['.', 'm', 'd'] {
        f.subrange(0, f.len() - 3)
    } else {
        f
    }
}

/// The stem of an existing note: its file name without the extension.
pub open spec fn meta_stem(m: NoteMeta) -> Seq<char> {
    strip_md(m.filename@)
}

/// `f` without a trailing `.md`.
pub fn strip_md_chars(f: &Vec<char>) -> (r: Vec<char>)
    ensures
        r@ == strip_md(f@),
{
    let n = f.len();
    if n >= 3 && f[n - 3] == '.' && f[n - 2] == 'm' && f[n - 1] == 'd' {
        assert(f@.subrange(n - 3, n as int) =~= seq!['.', 'm', 'd']);
        let mut r: Vec<char> = Vec::new();
        let mut i: usize = 0;
        while i < n - 3
            invariant
                n == f.len(),
                n >= 3,
                i <= n - 3,
                r@ == f@.subrange(0, i as int),
            decreases n - 3 - i,
        {
            r.push(f[i]);
            i += 1;
        }
        r
    } else {
        if n >= 3 {
            assert(f@.subrange(n - 3, n as int)[0] == f@[n - 3]);
            assert(f@.subrange(n - 3, n as int)[1] == f@[n - 2]);
            assert(f@.subrange(n - 3, n as int)[2] == f@[n - 1]);
        }
        let mut r: Vec<char> = Vec::new();
        push_all(&mut r, f);
        r
    }
}

/// `p` first occurs in `s` at `i`.
pub open spec fn first_at(s: Seq<char>, p: Seq<char>, i: int) -> bool {
    occurs_at(s, p, i) && forall|k: int| 0 <= k < i ==> !occurs_at(s, p, k)
}

/// The marker line of a frontmatter block.
pub open spec fn dashes() -> Seq<char> {
    seq!['-', '-', '-']
}

/// The content after leading whitespace starts with `---`.
pub open spec fn opens_frontmatter(content: Seq<char>) -> bool {
    let t = trim_start(content);
    t.len() >= 3 && t.subrange(0, 3) == dashes()
}

/// What follows the opening `---`.
pub open spec fn after_opening(content: Seq<char>) -> Seq<char> {
    let t = trim_start(content);
    t.subrange(3, t.len() as int)
}

/// The position of the first of `p` in `s`, if any.
pub fn find_chars(s: &Vec<char>, p: &Vec<char>) -> (r: Option<usize>)
    ensures
        match r {
            Some(i) => first_at(s@, p@, i as int),
            None => forall|k: int| !occurs_at(s@, p@, k),
        },
{
    if p.len() > s.len() {
        return None;
    }
    let last = s.len() - p.len();
    let mut i: usize = 0;
    loop
        invariant
            last == s.len() - p.len(),
            i <= last,
            forall|k: int| 0 <= k < i ==> !occurs_at(s@, p@, k),
        decreases last - i,
    {
        if crate::text::matches_at(s, p, i) {
            return Some(i);
        }
        if i == last {
            assert forall|k: int| !occurs_at(s@, p@, k) by {
                if 0 <= k < i {
                }
            }
            return None;
        }
        i += 1;
    }
}

/// A file name that has the markdown extension: it ends in `.md` after at
/// least one other character.
pub open spec fn is_markdown_name(name: Seq<char>) -> bool {
    name.len() > 3 && name.subrange(name.len() - 3, name.len() as int) == seq!['.', 'm', 'd']
}

/// Scans a notes directory's metadata.
pub struct NotesReader {}

impl NotesReader {
    pub fn new() -> (r: NotesReader) {
        NotesReader {  }
    }

    /// The text between the opening `---` (after leading whitespace) and the
    /// next `---`; `None` where the content opens otherwise or the block is
    /// not closed.
    pub fn frontmatter_block(content: &str) -> (r: Option<String>)
        ensures
            r is None <==> !opens_frontmatter(content@) || forall|k: int|
                !occurs_at(after_opening(content@), dashes(), k),
            r matches Some(y) ==> exists|e: int|
                first_at(after_opening(content@), dashes(), e) && y@ == after_opening(
                    content@,
                ).subrange(0, e),
    {
        let c = chars_of(content);
        let mut i: usize = 0;
        assert(c@.subrange(0, c.len() as int) =~= c@);
        while i < c.len() && c[i].is_whitespace()
            invariant
                i <= c.len(),
                c@ == content@,
                trim_start(c@) == trim_start(c@.subrange(i as int, c.len() as int)),
            decreases c.len() - i,
        {
            assert(c@.subrange(i as int, c.len() as int).drop_first() =~= c@.subrange(
                i + 1,
                c.len() as int,
            ));
            i += 1;
        }
        let ghost t = c@.subrange(i as int, c.len() as int);
        assert(trim_start(t) == t);
        if !(c.len() >= 3 && i <= c.len() - 3 && c[i] == '-' && c[i + 1] == '-' && c[i + 2] == '-') {
            proof {
                if t.len() >= 3 {
                    assert(t.subrange(0, 3)[0] == t[0]);
                    assert(t.subrange(0, 3)[1] == t[1]);
                    assert(t.subrange(0, 3)[2] == t[2]);
                }
            }
            return None;
        }
        assert(t.subrange(0, 3) =~= dashes());
        let mut rest: Vec<char> = Vec::new();
        let mut k: usize = i + 3;
        while k < c.len()
            invariant
                i + 3 <= k <= c.len(),
                rest@ == c@.subrange(i + 3, k as int),
            decreases c.len() - k,
        {
            rest.push(c[k]);
            k += 1;
        }
        assert(rest@ =~= after_opening(content@));
        let mut d: Vec<char> = Vec::new();
        d.push('-');
        d.push('-');
        d.push('-');
        assert(d@ =~= dashes());
        match find_chars(&rest, &d) {
            None => None,
            Some(e) => {
                let mut y: Vec<char> = Vec::new();
                let mut m: usize = 0;
                while m < e
                    invariant
                        e <= rest.len(),
                        m <= e,
                        y@ == rest@.subrange(0, m as int),
                    decreases e - m,
                {
                    y.push(rest[m]);
                    m += 1;
                }
                Some(string_of(&y))
            },
        }
    }

    /// Whether a file name has the markdown extension.
    pub fn is_note_file(name: &str) -> (r: bool)
        ensures
            r == is_markdown_name(name@),
    {
        let c = chars_of(name);
        let n = c.len();
        if n > 3 && c[n - 3] == '.' && c[n - 2] == 'm' && c[n - 1] == 'd' {
            assert(c@.subrange(n - 3, n as int) =~= seq!['.', 'm', 'd']);
            true
        } else {
            if n > 3 {
                assert(c@.subrange(n - 3, n as int)[0] == c@[n - 3]);
                assert(c@.subrange(n - 3, n as int)[1] == c@[n - 2]);
                assert(c@.subrange(n - 3, n as int)[2] == c@[n - 1]);
            }
            false
        }
    }

    /// The metadata of an existing note from the fields its frontmatter
    /// gave: the title defaults to the file name, date and source to empty.
    pub fn meta_from(
        filename: String,
        title: Option<String>,
        date: Option<String>,
        tags: Vec<String>,
        source: Option<String>,
    ) -> (r: NoteMeta)
        ensures
            r.title@ == (match title {
                Some(t) => t@,
                None => filename@,
            }),
            r.date@ == (match date {
                Some(d) => d@,
                None => Seq::<char>::empty(),
            }),
            r.tags@ == tags@,
            r.filename@ == filename@,
            r.source@ == (match source {
                Some(s) => s@,
                None => Seq::<char>::empty(),
            }),
    {
        let t = match title {
            Some(t) => t,
            None => filename.clone(),
        };
        let d = match date {
            Some(d) => d,
            None => String::new(),
        };
        let s = match source {
            Some(s) => s,
            None => String::new(),
        };
        NoteMeta { title: t, date: d, tags, filename, source: s }
    }
}

} // verus!
