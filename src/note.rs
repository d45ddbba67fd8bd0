//! The note entity: its calendar date, its canonical file name and stem,
//! tag sanitization and the markdown it is written as.
use vstd::prelude::*;
use crate::text::{chars_of, push_str_chars, string_of};

verus! {

/// Relies on `char::is_whitespace`: the character has the Unicode
/// `White_Space` property.
pub uninterp spec fn unicode_whitespace(c: char) -> bool;

/// Relies on `char::is_alphanumeric`: the character is alphabetic or numeric
/// in Unicode.
pub uninterp spec fn unicode_alphanumeric(c: char) -> bool;

/// Relies on `char::is_whitespace` (Unicode `White_Space`, which holds of the
/// ASCII space).
pub assume_specification[ char::is_whitespace ](c: char) -> (r: bool)
    ensures
        r == unicode_whitespace(c),
        c == ' ' ==> r,
;

/// Relies on `char::is_alphanumeric` (Unicode alphabetic or numeric, which
/// holds of the ASCII letters and digits).
pub assume_specification[ char::is_alphanumeric ](c: char) -> (r: bool)
    ensures
        r == unicode_alphanumeric(c),
        ('a' <= c <= 'z' || 'A' <= c <= 'Z' || '0' <= c <= '9') ==> r,
;

/// The characters that a file name may not hold.
pub open spec fn path_unsafe(c: char) -> bool {
    c == '/' || c == '\\' || c == ':' || c == '*' || c == '?' || c == '"' || c == '<' || c == '>'
        || c == '|'
}

/// The characters of `s` that are not path-unsafe.
pub open spec fn without_unsafe(s: Seq<char>) -> Seq<char>
    decreases s.len(),
{
    if s.len() == 0 {
        s
    } else if path_unsafe(s.last()) {
        without_unsafe(s.drop_last())
    } else {
        without_unsafe(s.drop_last()).push(s.last())
    }
}

/// `s` with each run of spaces shortened to one space.
pub open spec fn collapse_spaces(s: Seq<char>) -> Seq<char>
    decreases s.len(),
{
    if s.len() == 0 {
        s
    } else {
        let prev = collapse_spaces(s.drop_last());
        if s.last() == ' ' && prev.len() > 0 && prev.last() == ' ' {
            prev
        } else {
            prev.push(s.last())
        }
    }
}

/// `s` without its leading whitespace.
pub open spec fn trim_start(s: Seq<char>) -> Seq<char>
    decreases s.len(),
{
    if s.len() > 0 && unicode_whitespace(s[0]) {
        trim_start(s.drop_first())
    } else {
        s
    }
}

/// `s` without its trailing whitespace.
pub open spec fn trim_end(s: Seq<char>) -> Seq<char>
    decreases s.len(),
{
    if s.len() > 0 && unicode_whitespace(s.last()) {
        trim_end(s.drop_last())
    } else {
        s
    }
}

/// The canonical identifier of a note with this title: unsafe characters
/// removed, runs of spaces collapsed, surrounding whitespace trimmed.
pub open spec fn stem_of(title: Seq<char>) -> Seq<char> {
    trim_end(trim_start(collapse_spaces(without_unsafe(title))))
}

/// The file name of a note with this title.
pub open spec fn filename_of(title: Seq<char>) -> Seq<char> {
    stem_of(title) + seq!['.', 'm', 'd']
}

/// What one character of a tag becomes.
pub open spec fn tag_piece(c: char) -> Seq<char> {
    if c == ' ' {
        seq!['-']
    } else if unicode_alphanumeric(c) || c == '-' || c == '_' || c == '/' {
        seq![c]
    } else {
        Seq::empty()
    }
}

/// A tag with spaces turned into hyphens and every character dropped but
/// alphanumerics, hyphens, underscores and slashes.
pub open spec fn sanitized(s: Seq<char>) -> Seq<char>
    decreases s.len(),
{
    if s.len() == 0 {
        s
    } else {
        sanitized(s.drop_last()) + tag_piece(s.last())
    }
}

/// The views of a sequence of strings.
pub open spec fn strs(v: Seq<String>) -> Seq<Seq<char>> {
    v.map_values(|s: String| s@)
}

/// A copy of a list of strings.
pub fn clone_strings(v: &Vec<String>) -> (r: Vec<String>)
    ensures
        r@ == v@,
{
    let mut r: Vec<String> = Vec::new();
    let mut i: usize = 0;
    while i < v.len()
        invariant
            i <= v.len(),
            r@ == v@.subrange(0, i as int),
        decreases v.len() - i,
    {
        r.push(v[i].clone());
        i += 1;
    }
    assert(r@ =~= v@);
    r
}

/// Title with path-unsafe characters removed and space runs collapsed.
fn clean_title(title: &str) -> (r: Vec<char>)
    ensures
        r@ == collapse_spaces(without_unsafe(title@)),
{
    let t = chars_of(title);
    let mut kept: Vec<char> = Vec::new();
    let mut i: usize = 0;
    while i < t.len()
        invariant
            i <= t.len(),
            t@ == title@,
            kept@ == without_unsafe(t@.subrange(0, i as int)),
        decreases t.len() - i,
    {
        let c = t[i];
        assert(t@.subrange(0, i + 1).drop_last() =~= t@.subrange(0, i as int));
        if !(c == '/' || c == '\\' || c == ':' || c == '*' || c == '?' || c == '"' || c == '<' || c
            == '>' || c == '|') {
            kept.push(c);
        }
        i += 1;
    }
    assert(t@.subrange(0, t.len() as int) =~= t@);
    let mut out: Vec<char> = Vec::new();
    let mut j: usize = 0;
    while j < kept.len()
        invariant
            j <= kept.len(),
            out@ == collapse_spaces(kept@.subrange(0, j as int)),
        decreases kept.len() - j,
    {
        let c = kept[j];
        assert(kept@.subrange(0, j + 1).drop_last() =~= kept@.subrange(0, j as int));
        let n = out.len();
        if !(c == ' ' && n > 0 && out[n - 1] == ' ') {
            out.push(c);
        }
        j += 1;
    }
    assert(kept@.subrange(0, kept.len() as int) =~= kept@);
    out
}

/// `v` without leading and trailing whitespace.
fn trim_chars(v: &Vec<char>) -> (r: Vec<char>)
    ensures
        r@ == trim_end(trim_start(v@)),
{
    let mut i: usize = 0;
    assert(v@.subrange(0, v.len() as int) =~= v@);
    while i < v.len() && v[i].is_whitespace()
        invariant
            i <= v.len(),
            trim_start(v@) == trim_start(v@.subrange(i as int, v.len() as int)),
        decreases v.len() - i,
    {
        assert(v@.subrange(i as int, v.len() as int).drop_first() =~= v@.subrange(
            i + 1,
            v.len() as int,
        ));
        i += 1;
    }
    let mut j: usize = v.len();
    while j > i && v[j - 1].is_whitespace()
        invariant
            i <= j <= v.len(),
            trim_start(v@) == v@.subrange(i as int, v.len() as int),
            trim_end(trim_start(v@)) == trim_end(v@.subrange(i as int, j as int)),
        decreases j - i,
    {
        assert(v@.subrange(i as int, j as int).drop_last() =~= v@.subrange(
            i as int,
            j - 1,
        ));
        j -= 1;
    }
    let mut r: Vec<char> = Vec::new();
    let mut k: usize = i;
    while k < j
        invariant
            i <= k <= j <= v.len(),
            r@ == v@.subrange(i as int, k as int),
        decreases j - k,
    {
        r.push(v[k]);
        k += 1;
    }
    r
}

/// The stem of a title, as characters.
pub fn stem_chars(title: &str) -> (r: Vec<char>)
    ensures
        r@ == stem_of(title@),
{
    let c = clean_title(title);
    trim_chars(&c)
}


/// Days in a month of the proleptic Gregorian calendar.
pub open spec fn days_in_month(year: int, month: int) -> int {
    if month == 2 {
        if (year % 4 == 0 && year % 100 != 0) || year % 400 == 0 {
            29
        } else {
            28
        }
    } else if month == 4 || month == 6 || month == 9 || month == 11 {
        30
    } else {
        31
    }
}

/// A day that chrono's `NaiveDate` can hold.
pub open spec fn calendar_day(year: int, month: int, day: int) -> bool {
    -262143 <= year <= 262142 && 1 <= month <= 12 && 1 <= day <= days_in_month(year, month)
}

/// One decimal digit.
pub open spec fn digit(d: int) -> char {
    if d == 0 { '0' }
    else if d == 1 { '1' }
    else if d == 2 { '2' }
    else if d == 3 { '3' }
    else if d == 4 { '4' }
    else if d == 5 { '5' }
    else if d == 6 { '6' }
    else if d == 7 { '7' }
    else if d == 8 { '8' }
    else { '9' }
}

/// `n` in two zero-padded decimal digits.
pub open spec fn two_digits(n: int) -> Seq<char> {
    seq![digit(n / 10), digit(n % 10)]
}

/// `YYYY-MM-DD` for a year of four digits.
pub open spec fn iso_day(year: int, month: int, day: int) -> Seq<char> {
    seq![digit(year / 1000), digit(year / 100 % 10), digit(year / 10 % 10), digit(year % 10), '-']
        + two_digits(month) + seq!['-'] + two_digits(day)
}

/// What chrono's `%Y-%m-%d` format gives for a day.
pub uninterp spec fn chrono_day_text(year: int, month: int, day: int) -> Seq<char>;

/// Relies on chrono's `NaiveDate::from_ymd_opt`: `Some` exactly for a day of
/// the proleptic Gregorian calendar within its year range.
#[verifier::external_body]
fn day_exists(year: i32, month: u32, day: u32) -> (r: bool)
    ensures
        r == calendar_day(year as int, month as int, day as int),
{
    chrono::NaiveDate::from_ymd_opt(year, month, day).is_some()
}

/// Relies on chrono's `NaiveDate::format` with `%Y-%m-%d`: a year from 0 to
/// 9999 in four zero-padded digits, then the month and the day in two.
#[verifier::external_body]
fn format_day(year: i32, month: u32, day: u32) -> (r: String)
    requires
        calendar_day(year as int, month as int, day as int),
    ensures
        r@ == chrono_day_text(year as int, month as int, day as int),
        0 <= year <= 9999 ==> r@ == iso_day(year as int, month as int, day as int),
{
    let d = chrono::NaiveDate::from_ymd_opt(year, month, day).unwrap();
    d.format("%Y-%m-%d").to_string()
}

/// A point in time in UTC, to the second.
#[derive(Clone, Copy, Debug, PartialEq, Eq)]
pub struct NoteDate {
    year: i32,
    month: u32,
    day: u32,
    hour: u32,
    minute: u32,
    second: u32,
}

impl NoteDate {
    #[verifier::type_invariant]
    spec fn valid(self) -> bool {
        calendar_day(self.year as int, self.month as int, self.day as int) && self.hour < 24
            && self.minute < 60 && self.second < 60
    }

    pub closed spec fn spec_year(self) -> int {
        self.year as int
    }

    pub closed spec fn spec_month(self) -> int {
        self.month as int
    }

    pub closed spec fn spec_day(self) -> int {
        self.day as int
    }

    pub closed spec fn spec_clock(self) -> (int, int, int) {
        (self.hour as int, self.minute as int, self.second as int)
    }

    /// The date for these fields, or `None` where they name no moment.
    pub fn new(year: i32, month: u32, day: u32, hour: u32, minute: u32, second: u32) -> (r:
        Option<NoteDate>)
        ensures
            r is Some <==> (calendar_day(year as int, month as int, day as int) && hour < 24
                && minute < 60 && second < 60),
            r matches Some(d) ==> d.spec_year() == year && d.spec_month() == month
                && d.spec_day() == day && d.spec_clock() == (hour as int, minute as int, second as int),
    {
        if day_exists(year, month, day) && hour < 24 && minute < 60 && second < 60 {
            Some(NoteDate { year, month, day, hour, minute, second })
        } else {
            None
        }
    }

    pub fn year(&self) -> (r: i32)
        ensures
            r == self.spec_year(),
    {
        self.year
    }

    pub fn month(&self) -> (r: u32)
        ensures
            r == self.spec_month(),
    {
        self.month
    }

    pub fn day(&self) -> (r: u32)
        ensures
            r == self.spec_day(),
    {
        self.day
    }

    /// Hour, minute and second.
    pub fn clock(&self) -> (r: (u32, u32, u32))
        ensures
            (r.0 as int, r.1 as int, r.2 as int) == self.spec_clock(),
    {
        (self.hour, self.minute, self.second)
    }

    /// The day as chrono formats it.
    pub open spec fn day_text(self) -> Seq<char> {
        chrono_day_text(self.spec_year(), self.spec_month(), self.spec_day())
    }

    /// The day as `YYYY-MM-DD`.
    pub fn format_day(&self) -> (r: String)
        ensures
            r@ == self.day_text(),
            0 <= self.spec_year() <= 9999 ==> r@ == iso_day(
                self.spec_year(),
                self.spec_month(),
                self.spec_day(),
            ),
    {
        proof {
            use_type_invariant(self);
        }
        format_day(self.year, self.month, self.day)
    }
}


/// What a note holds, as mathematical values.
pub ghost struct NoteView {
    pub title: Seq<char>,
    pub content: Seq<char>,
    pub tags: Seq<Seq<char>>,
    pub date: NoteDate,
    pub source: Seq<char>,
    pub related_notes: Seq<Seq<char>>,
}

/// A generated note.
#[derive(Clone, Debug)]
pub struct Note {
    pub title: String,
    pub content: String,
    pub tags: Vec<String>,
    pub date: NoteDate,
    pub source: String,
    pub related_notes: Vec<String>,
}

impl View for Note {
    type V = NoteView;

    open spec fn view(&self) -> NoteView {
        NoteView {
            title: self.title@,
            content: self.content@,
            tags: strs(self.tags@),
            date: self.date,
            source: self.source@,
            related_notes: strs(self.related_notes@),
        }
    }
}

/// `items`, each between `before` and `after`, one after another.
pub open spec fn framed_lines(items: Seq<Seq<char>>, before: Seq<char>, after: Seq<char>) -> Seq<
    char,
>
    decreases items.len(),
{
    if items.len() == 0 {
        Seq::empty()
    } else {
        framed_lines(items.drop_last(), before, after) + before + items.last() + after
    }
}

/// The markdown file of a note: frontmatter, content, then a section that
/// links each related note.
pub open spec fn markdown_of(n: NoteView) -> Seq<char> {
    "---\ntitle: \""@ + n.title + "\"\ndate: "@ + n.date.day_text() + "\nsource: "@ + n.source
        + "\n"@ + (if n.tags.len() > 0 {
        "tags:\n"@ + framed_lines(n.tags, "  - "@, "\n"@)
    } else {
        Seq::empty()
    }) + (if n.related_notes.len() > 0 {
        "related:\n"@ + framed_lines(n.related_notes, "  - \""@, "\"\n"@)
    } else {
        Seq::empty()
    }) + "---\n\n"@ + n.content + (if n.related_notes.len() > 0 {
        "\n\n---\n\n## Note correlate\n\n"@ + framed_lines(n.related_notes, "- [["@, "]]\n"@)
    } else {
        Seq::empty()
    })
}

/// Appends each of `items` between `before` and `after`.
fn push_framed(out: &mut Vec<char>, items: &Vec<String>, before: &str, after: &str)
    ensures
        final(out)@ == old(out)@ + framed_lines(strs(items@), before@, after@),
{
    let mut i: usize = 0;
    while i < items.len()
        invariant
            i <= items.len(),
            out@ == old(out)@ + framed_lines(strs(items@.subrange(0, i as int)), before@, after@),
        decreases items.len() - i,
    {
        proof {
            assert(strs(items@.subrange(0, i + 1)).drop_last() =~= strs(
                items@.subrange(0, i as int),
            ));
        }
        push_str_chars(out, before);
        push_str_chars(out, items[i].as_str());
        push_str_chars(out, after);
        i += 1;
    }
    assert(items@.subrange(0, items.len() as int) =~= items@);
}

impl Note {
    /// The note as markdown with a frontmatter block.
    pub fn to_markdown(&self) -> (r: String)
        ensures
            r@ == markdown_of(self@),
    {
        let mut md: Vec<char> = Vec::new();
        push_str_chars(&mut md, "---\ntitle: \"");
        push_str_chars(&mut md, self.title.as_str());
        push_str_chars(&mut md, "\"\ndate: ");
        let day = self.date.format_day();
        push_str_chars(&mut md, day.as_str());
        push_str_chars(&mut md, "\nsource: ");
        push_str_chars(&mut md, self.source.as_str());
        push_str_chars(&mut md, "\n");
        if self.tags.len() > 0 {
            push_str_chars(&mut md, "tags:\n");
            push_framed(&mut md, &self.tags, "  - ", "\n");
        }
        if self.related_notes.len() > 0 {
            push_str_chars(&mut md, "related:\n");
            push_framed(&mut md, &self.related_notes, "  - \"", "\"\n");
        }
        push_str_chars(&mut md, "---\n\n");
        push_str_chars(&mut md, self.content.as_str());
        if self.related_notes.len() > 0 {
            push_str_chars(&mut md, "\n\n---\n\n## Note correlate\n\n");
            push_framed(&mut md, &self.related_notes, "- [[", "]]\n");
        }
        assert(md@ =~= markdown_of(self@));
        string_of(&md)
    }

    /// The file name of this note: its stem followed by `.md`.
    pub fn generate_filename(&self) -> (r: String)
        ensures
            r@ == filename_of(self.title@),
    {
        let mut v = stem_chars(self.title.as_str());
        push_str_chars(&mut v, ".md");
        proof {
            reveal_strlit(".md");
        }
        assert(v@ =~= filename_of(self.title@));
        string_of(&v)
    }

    /// The canonical identifier of this note, used in wiki-links.
    pub fn filename_stem(&self) -> (r: String)
        ensures
            r@ == stem_of(self.title@),
    {
        let v = stem_chars(self.title.as_str());
        string_of(&v)
    }

    /// A tag with spaces turned into hyphens and every character dropped but
    /// alphanumerics, hyphens, underscores and slashes.
    pub fn sanitize_tag(tag: &str) -> (r: String)
        ensures
            r@ == sanitized(tag@),
    {
        let t = chars_of(tag);
        let mut out: Vec<char> = Vec::new();
        let mut i: usize = 0;
        while i < t.len()
            invariant
                i <= t.len(),
                t@ == tag@,
                out@ == sanitized(t@.subrange(0, i as int)),
            decreases t.len() - i,
        {
            let c = t[i];
            assert(t@.subrange(0, i + 1).drop_last() =~= t@.subrange(0, i as int));
            if c == ' ' {
                out.push('-');
            } else if c.is_alphanumeric() || c == '-' || c == '_' || c == '/' {
                out.push(c);
            }
            assert(out@ =~= sanitized(t@.subrange(0, i + 1)));
            i += 1;
        }
        assert(t@.subrange(0, t.len() as int) =~= t@);
        string_of(&out)
    }
}

} // verus!
