//! Character-level text operations used by the note pipeline, stated over
//! `Seq<char>` views.
use vstd::prelude::*;

verus! {

/// Relies on `String::push`: appends one character at the end.
pub assume_specification[ String::push ](s: &mut String, ch: char)
    ensures
        final(s)@ == old(s)@.push(ch),
;

/// `p` occurs in `s` starting at position `i`.
pub open spec fn occurs_at(s: Seq<char>, p: Seq<char>, i: int) -> bool {
    0 <= i && i + p.len() <= s.len() && s.subrange(i, i + p.len()) == p
}

/// `p` occurs somewhere in `s` (the empty pattern occurs in every text).
pub open spec fn contains_seq(s: Seq<char>, p: Seq<char>) -> bool {
    exists|i: int| #[trigger] occurs_at(s, p, i)
}

/// Every occurrence of `p` in `s` replaced by `r`, scanning left to right
/// without overlap. The empty pattern matches before every character and at
/// the end.
pub open spec fn replace_all(s: Seq<char>, p: Seq<char>, r: Seq<char>) -> Seq<char>
    decreases s.len(),
{
    if s.len() == 0 {
        if p.len() == 0 {
            r
        } else {
            s
        }
    } else if p.len() == 0 {
        r + seq![s[0]] + replace_all(s.drop_first(), p, r)
    } else if occurs_at(s, p, 0) {
        r + replace_all(s.subrange(p.len() as int, s.len() as int), p, r)
    } else {
        seq![s[0]] + replace_all(s.drop_first(), p, r)
    }
}

/// The wiki-link `[[s]]`.
pub open spec fn link(s: Seq<char>) -> Seq<char> {
    seq!['[', '['] + s + seq![']', ']']
}

/// `y` never occurs across any part of `r`, whatever surrounds `r`.
pub open spec fn never_touches(y: Seq<char>, r: Seq<char>) -> bool {
    forall|u: Seq<char>, v: Seq<char>, k: int|
        #[trigger] occurs_at(u + r + v, y, k) ==> k + y.len() <= u.len() || k >= u.len() + r.len()
}

proof fn lemma_occurs_shift(c: Seq<char>, p: Seq<char>, k: int, d: int)
    requires
        0 <= d <= c.len(),
    ensures
        occurs_at(c.subrange(d, c.len() as int), p, k) <==> (k >= 0 && occurs_at(c, p, k + d)),
{
    if k >= 0 && k + p.len() <= c.len() - d {
        assert(c.subrange(d, c.len() as int).subrange(k, k + p.len()) =~= c.subrange(
            k + d,
            k + d + p.len(),
        ));
    }
}

/// Replacing starts at the first occurrence of the pattern.
pub proof fn lemma_replace_first(c: Seq<char>, p: Seq<char>, r: Seq<char>, i: int)
    requires
        p.len() > 0,
        occurs_at(c, p, i),
        forall|k: int| 0 <= k < i ==> !occurs_at(c, p, k),
    ensures
        replace_all(c, p, r) == c.subrange(0, i) + r + replace_all(
            c.subrange(i + p.len(), c.len() as int),
            p,
            r,
        ),
    decreases i,
{
    if i == 0 {
        assert(c.subrange(0, 0) + r =~= r);
    } else {
        let c1 = c.drop_first();
        assert(c1 =~= c.subrange(1, c.len() as int));
        assert(!occurs_at(c, p, 0));
        assert forall|k: int| 0 <= k < i - 1 implies !occurs_at(c1, p, k) by {
            lemma_occurs_shift(c, p, k, 1);
        }
        lemma_occurs_shift(c, p, i - 1, 1);
        lemma_replace_first(c1, p, r, i - 1);
        assert(c1.subrange(i - 1 + p.len(), c1.len() as int) =~= c.subrange(
            i + p.len(),
            c.len() as int,
        ));
        assert(seq![c[0]] + c1.subrange(0, i - 1) =~= c.subrange(0, i));
        assert(seq![c[0]] + (c1.subrange(0, i - 1) + r + replace_all(
            c.subrange(i + p.len(), c.len() as int),
            p,
            r,
        )) =~= c.subrange(0, i) + r + replace_all(
            c.subrange(i + p.len(), c.len() as int),
            p,
            r,
        ));
    }
}

/// Without an occurrence of the pattern, replacing changes nothing.
pub proof fn lemma_replace_none(c: Seq<char>, p: Seq<char>, r: Seq<char>)
    requires
        p.len() > 0,
        forall|k: int| !occurs_at(c, p, k),
    ensures
        replace_all(c, p, r) == c,
    decreases c.len(),
{
    if c.len() > 0 {
        let c1 = c.drop_first();
        assert(c1 =~= c.subrange(1, c.len() as int));
        assert(!occurs_at(c, p, 0));
        assert forall|k: int| !occurs_at(c1, p, k) by {
            lemma_occurs_shift(c, p, k, 1);
        }
        lemma_replace_none(c1, p, r);
        assert(seq![c[0]] + c1 =~= c);
    }
}

/// The first occurrence of a pattern that occurs.
proof fn lemma_first_occurrence(c: Seq<char>, p: Seq<char>) -> (i: int)
    requires
        contains_seq(c, p),
    ensures
        occurs_at(c, p, i),
        forall|k: int| 0 <= k < i ==> !occurs_at(c, p, k),
    decreases c.len(),
{
    if occurs_at(c, p, 0) {
        0
    } else {
        let j = choose|j: int| occurs_at(c, p, j);
        lemma_occurs_shift(c, p, j - 1, 1);
        let c1 = c.subrange(1, c.len() as int);
        assert(occurs_at(c1, p, j - 1));
        let i1 = lemma_first_occurrence(c1, p);
        lemma_occurs_shift(c, p, i1, 1);
        assert forall|k: int| 0 <= k < i1 + 1 implies !occurs_at(c, p, k) by {
            if k > 0 {
                lemma_occurs_shift(c, p, k - 1, 1);
            }
        }
        i1 + 1
    }
}

/// Replacing a pattern by itself changes nothing.
pub proof fn lemma_replace_same(c: Seq<char>, p: Seq<char>)
    requires
        p.len() > 0,
    ensures
        replace_all(c, p, p) == c,
    decreases c.len(),
{
    if contains_seq(c, p) {
        let i = lemma_first_occurrence(c, p);
        lemma_replace_first(c, p, p, i);
        let rest = c.subrange(i + p.len(), c.len() as int);
        lemma_replace_same(rest, p);
        assert(c.subrange(0, i) + p + rest =~= c);
    } else {
        lemma_replace_none(c, p, p);
    }
}

/// After a replacement that happened, the replacement text is there.
pub proof fn lemma_replace_inserts(c: Seq<char>, p: Seq<char>, r: Seq<char>)
    requires
        p.len() > 0,
        contains_seq(c, p),
    ensures
        contains_seq(replace_all(c, p, r), r),
{
    let i = lemma_first_occurrence(c, p);
    lemma_replace_first(c, p, r, i);
    let w = replace_all(c.subrange(i + p.len(), c.len() as int), p, r);
    assert((c.subrange(0, i) + r + w).subrange(i, i + r.len()) =~= r);
    assert(occurs_at(replace_all(c, p, r), r, i));
}

/// An occurrence in a prefix or a suffix is one in the whole.
proof fn lemma_occurs_in_parts(u: Seq<char>, m: Seq<char>, w: Seq<char>, y: Seq<char>, k: int)
    requires
        occurs_at(u + m + w, y, k),
        k + y.len() <= u.len() || k >= u.len() + m.len(),
    ensures
        k + y.len() <= u.len() ==> occurs_at(u, y, k),
        k >= u.len() + m.len() ==> occurs_at(w, y, k - u.len() - m.len()),
{
    let t = u + m + w;
    if k + y.len() <= u.len() {
        assert(t.subrange(k, k + y.len()) =~= u.subrange(k, k + y.len()));
    }
    if k >= u.len() + m.len() {
        assert(t.subrange(k, k + y.len()) =~= w.subrange(
            k - u.len() - m.len(),
            k - u.len() - m.len() + y.len(),
        ));
    }
}

/// Replacing creates no occurrence of a text that cannot touch the
/// replacement.
pub proof fn lemma_replace_no_new(c: Seq<char>, p: Seq<char>, r: Seq<char>, y: Seq<char>)
    requires
        p.len() > 0,
        !contains_seq(c, y),
        never_touches(y, r),
    ensures
        !contains_seq(replace_all(c, p, r), y),
    decreases c.len(),
{
    if contains_seq(c, p) {
        let i = lemma_first_occurrence(c, p);
        lemma_replace_first(c, p, r, i);
        let u = c.subrange(0, i);
        let rest = c.subrange(i + p.len(), c.len() as int);
        assert forall|k: int| !occurs_at(rest, y, k) by {
            lemma_occurs_shift(c, y, k, i + p.len());
        }
        lemma_replace_no_new(rest, p, r, y);
        let w = replace_all(rest, p, r);
        assert forall|k: int| !occurs_at(u + r + w, y, k) by {
            if occurs_at(u + r + w, y, k) {
                lemma_occurs_in_parts(u, r, w, y, k);
                if k + y.len() <= u.len() {
                    assert(u.subrange(k, k + y.len()) =~= c.subrange(k, k + y.len()));
                    assert(occurs_at(c, y, k));
                }
            }
        }
    } else {
        lemma_replace_none(c, p, r);
    }
}

/// Replacing leaves the pattern nowhere, when it cannot touch the
/// replacement.
pub proof fn lemma_replace_removes(c: Seq<char>, p: Seq<char>, r: Seq<char>)
    requires
        p.len() > 0,
        never_touches(p, r),
    ensures
        !contains_seq(replace_all(c, p, r), p),
    decreases c.len(),
{
    if contains_seq(c, p) {
        let i = lemma_first_occurrence(c, p);
        lemma_replace_first(c, p, r, i);
        let u = c.subrange(0, i);
        let rest = c.subrange(i + p.len(), c.len() as int);
        lemma_replace_removes(rest, p, r);
        let w = replace_all(rest, p, r);
        assert forall|k: int| !occurs_at(u + r + w, p, k) by {
            if occurs_at(u + r + w, p, k) {
                lemma_occurs_in_parts(u, r, w, p, k);
                if k + p.len() <= u.len() {
                    assert(u.subrange(k, k + p.len()) =~= c.subrange(k, k + p.len()));
                    assert(occurs_at(c, p, k));
                }
            }
        }
    } else {
        lemma_replace_none(c, p, r);
    }
}

/// Replacing keeps an occurrence of `q` that the pattern cannot touch.
pub proof fn lemma_replace_keeps(c: Seq<char>, p: Seq<char>, r: Seq<char>, q: Seq<char>)
    requires
        p.len() > 0,
        q.len() > 0,
        contains_seq(c, q),
        never_touches(p, q),
    ensures
        contains_seq(replace_all(c, p, r), q),
    decreases c.len(),
{
    if contains_seq(c, p) {
        let a = choose|a: int| occurs_at(c, q, a);
        let i = lemma_first_occurrence(c, p);
        lemma_replace_first(c, p, r, i);
        let u = c.subrange(0, i);
        let rest = c.subrange(i + p.len(), c.len() as int);
        let w = replace_all(rest, p, r);
        // the pattern's first match lies apart from the kept occurrence
        let cu = c.subrange(0, a);
        let cv = c.subrange(a + q.len(), c.len() as int);
        assert(cu + q + cv =~= c);
        assert(occurs_at(cu + q + cv, p, i));
        if a + q.len() <= i {
            assert((u + r + w).subrange(a, a + q.len()) =~= c.subrange(a, a + q.len()));
            assert(occurs_at(u + r + w, q, a));
        } else {
            assert(a >= i + p.len());
            lemma_occurs_shift(c, q, a - i - p.len(), i + p.len());
            lemma_replace_keeps(rest, p, r, q);
            let b = choose|b: int| occurs_at(w, q, b);
            assert((u + r + w).subrange(u.len() + r.len() + b, u.len() + r.len() + b + q.len())
                =~= w.subrange(b, b + q.len()));
            assert(occurs_at(u + r + w, q, u.len() + r.len() + b));
        }
    } else {
        lemma_replace_none(c, p, r);
    }
}

/// A non-empty name without square brackets.
pub open spec fn plain_name(x: Seq<char>) -> bool {
    x.len() > 0 && forall|q: int| 0 <= q < x.len() ==> x[q] != '[' && x[q] != ']'
}

proof fn lemma_char_at(t: Seq<char>, y: Seq<char>, k: int, q: int)
    requires
        occurs_at(t, y, k),
        0 <= q < y.len(),
    ensures
        y[q] == t[k + q],
{
    assert(t.subrange(k, k + y.len())[q] == t[k + q]);
}

proof fn lemma_link_chars(u: Seq<char>, s: Seq<char>, v: Seq<char>)
    ensures
        ({
            let t = u + link(s) + v;
            let b = u.len() as int;
            &&& t[b] == '['
            &&& t[b + 1] == '['
            &&& t[b + s.len() + 2] == ']'
            &&& t[b + s.len() + 3] == ']'
            &&& forall|q: int| 0 <= q < s.len() ==> #[trigger] t[b + 2 + q] == s[q]
            &&& t.len() == u.len() + s.len() + 4 + v.len()
        }),
{
    let t = u + link(s) + v;
    let b = u.len() as int;
    assert(t[b] == link(s)[0]);
    assert(t[b + 1] == link(s)[1]);
    assert(t[b + s.len() + 2] == link(s)[s.len() as int + 2]);
    assert(t[b + s.len() + 3] == link(s)[s.len() as int + 3]);
    assert forall|q: int| 0 <= q < s.len() implies #[trigger] t[b + 2 + q] == s[q] by {
        assert(t[b + 2 + q] == link(s)[2 + q]);
    }
}

/// A bracket-free name that is not part of `s` never touches the link `[[s]]`.
pub proof fn lemma_plain_never_touches_link(y: Seq<char>, s: Seq<char>)
    requires
        plain_name(y),
        !contains_seq(s, y),
    ensures
        never_touches(y, link(s)),
{
    assert forall|u: Seq<char>, v: Seq<char>, k: int| #[trigger]
        occurs_at(u + link(s) + v, y, k) implies k + y.len() <= u.len() || k >= u.len()
        + link(s).len() by {
        let t = u + link(s) + v;
        let b = u.len() as int;
        let n = s.len() as int;
        lemma_link_chars(u, s, v);
        if k + y.len() > b && k < b + n + 4 {
            if k <= b {
                lemma_char_at(t, y, k, b - k);
            } else if k == b + 1 {
                lemma_char_at(t, y, k, 0);
            } else if k >= b + n + 2 {
                lemma_char_at(t, y, k, 0);
            } else if k + y.len() > b + n + 2 {
                lemma_char_at(t, y, k, b + n + 2 - k);
            } else {
                assert forall|q: int| 0 <= q < y.len() implies s.subrange(
                    k - b - 2,
                    k - b - 2 + y.len(),
                )[q] == y[q] by {
                    lemma_char_at(t, y, k, q);
                    assert(t[b + 2 + (k - b - 2 + q)] == s[k - b - 2 + q]);
                }
                assert(s.subrange(k - b - 2, k - b - 2 + y.len()) =~= y);
                assert(occurs_at(s, y, k - b - 2));
            }
        }
    }
}

/// Links of two different bracket-free names never overlap.
pub proof fn lemma_links_never_touch(x: Seq<char>, s: Seq<char>)
    requires
        plain_name(x),
        plain_name(s),
        x != s,
    ensures
        never_touches(link(x), link(s)),
{
    assert forall|u: Seq<char>, v: Seq<char>, k: int| #[trigger]
        occurs_at(u + link(s) + v, link(x), k) implies k + link(x).len() <= u.len() || k
        >= u.len() + link(s).len() by {
        let t = u + link(s) + v;
        let y = link(x);
        let b = u.len() as int;
        let n = s.len() as int;
        let m = x.len() as int;
        lemma_link_chars(u, s, v);
        assert(y[0] == '[' && y[1] == '[' && y[m + 2] == ']' && y[m + 3] == ']');
        assert forall|q: int| 0 <= q < m implies #[trigger] y[2 + q] == x[q] by {}
        if k + m + 4 > b && k < b + n + 4 {
            if k < b {
                lemma_char_at(t, y, k, b - k);
                if b - k >= 2 && b - k < m + 2 {
                    assert(y[2 + (b - k - 2)] == x[b - k - 2]);
                }
                lemma_char_at(t, y, k, 2);
                assert(y[2int + 0] == x[0]);
            } else if k == b {
                if m < n {
                    lemma_char_at(t, y, k, m + 2);
                    assert(t[b + 2 + m] == s[m]);
                } else if m > n {
                    lemma_char_at(t, y, k, n + 2);
                    assert(y[2 + n] == x[n]);
                } else {
                    assert forall|q: int| 0 <= q < m implies x[q] == s[q] by {
                        lemma_char_at(t, y, k, 2 + q);
                        assert(t[b + 2 + q] == s[q]);
                    }
                    assert(x =~= s);
                }
            } else {
                lemma_char_at(t, y, k, 0);
                if k >= b + 2 && k < b + n + 2 {
                    assert(t[b + 2 + (k - b - 2)] == s[k - b - 2]);
                }
                lemma_char_at(t, y, k, 1);
                assert(t[b + 2int + 0] == s[0]);
            }
        }
    }
}

/// The characters of `s`, in order.
pub fn chars_of(s: &str) -> (r: Vec<char>)
    ensures
        r@ == s@,
{
    let mut r: Vec<char> = Vec::new();
    for c in it: s.chars()
        invariant
            it.seq() == s@,
            r@ == it.seq().subrange(0, it.index() as int),
    {
        r.push(c);
    }
    r
}

/// A string holding the characters of `v`.
pub fn string_of(v: &Vec<char>) -> (r: String)
    ensures
        r@ == v@,
{
    let mut r = String::new();
    let mut i: usize = 0;
    while i < v.len()
        invariant
            i <= v.len(),
            r@ == v@.subrange(0, i as int),
        decreases v.len() - i,
    {
        r.push(v[i]);
        i += 1;
    }
    r
}

/// Appends the characters of `r` to `out`.
pub fn push_all(out: &mut Vec<char>, r: &Vec<char>)
    ensures
        final(out)@ == old(out)@ + r@,
{
    let mut i: usize = 0;
    while i < r.len()
        invariant
            i <= r.len(),
            out@ == old(out)@ + r@.subrange(0, i as int),
        decreases r.len() - i,
    {
        out.push(r[i]);
        i += 1;
    }
}

/// Appends the characters of `s` to `out`.
pub fn push_str_chars(out: &mut Vec<char>, s: &str)
    ensures
        final(out)@ == old(out)@ + s@,
{
    let v = chars_of(s);
    push_all(out, &v);
}

/// Whether `p` occurs in `s` at position `i`.
pub fn matches_at(s: &Vec<char>, p: &Vec<char>, i: usize) -> (r: bool)
    ensures
        r == occurs_at(s@, p@, i as int),
{
    if i > s.len() || p.len() > s.len() - i {
        return false;
    }
    let mut j: usize = 0;
    while j < p.len()
        invariant
            j <= p.len(),
            i + p.len() <= s.len(),
            forall|k: int| 0 <= k < j ==> s@[i + k] == p@[k],
        decreases p.len() - j,
    {
        if s[i + j] != p[j] {
            assert(s@.subrange(i as int, i + p.len())[j as int] != p@[j as int]);
            return false;
        }
        j += 1;
    }
    assert(s@.subrange(i as int, i + p.len()) =~= p@);
    true
}

/// Whether `p` occurs anywhere in `s`.
pub fn contains_chars(s: &Vec<char>, p: &Vec<char>) -> (r: bool)
    ensures
        r == contains_seq(s@, p@),
{
    if p.len() > s.len() {
        assert forall|i: int| !occurs_at(s@, p@, i) by {}
        return false;
    }
    let last = s.len() - p.len();
    let mut i: usize = 0;
    loop
        invariant
            last == s.len() - p.len(),
            i <= last,
            forall|k: int| 0 <= k < i ==> !occurs_at(s@, p@, k),
        decreases last - i,
    {
        if matches_at(s, p, i) {
            return true;
        }
        if i == last {
            assert forall|k: int| !occurs_at(s@, p@, k) by {
                if 0 <= k < i {
                }
            }
            return false;
        }
        i += 1;
    }
}

/// `s` with every occurrence of `p` replaced by `r`, as `str::replace` does.
pub fn replace_chars(s: &Vec<char>, p: &Vec<char>, r: &Vec<char>) -> (out: Vec<char>)
    ensures
        out@ == replace_all(s@, p@, r@),
{
    let mut out: Vec<char> = Vec::new();
    let mut i: usize = 0;
    assert(s@.subrange(0, s.len() as int) =~= s@);
    while i < s.len()
        invariant
            i <= s.len(),
            out@ + replace_all(s@.subrange(i as int, s.len() as int), p@, r@)
                == replace_all(s@, p@, r@),
        decreases s.len() - i,
    {
        let ghost rest = s@.subrange(i as int, s.len() as int);
        if p.len() > 0 && matches_at(s, p, i) {
            assert(rest.subrange(0, p.len() as int) =~= s@.subrange(i as int, i + p.len()));
            assert(rest.subrange(p.len() as int, rest.len() as int) =~= s@.subrange(
                i + p.len(),
                s.len() as int,
            ));
            push_all(&mut out, r);
            i += p.len();
        } else {
            if p.len() == 0 {
                push_all(&mut out, r);
            } else {
                if p.len() <= s.len() - i {
                    assert(rest.subrange(0, p.len() as int) =~= s@.subrange(
                        i as int,
                        i + p.len(),
                    ));
                }
                assert(!occurs_at(rest, p@, 0));
            }
            assert(rest.drop_first() =~= s@.subrange(i + 1, s.len() as int));
            out.push(s[i]);
            i += 1;
        }
        assert(out@ + replace_all(s@.subrange(i as int, s.len() as int), p@, r@) =~= replace_all(
            s@,
            p@,
            r@,
        ));
    }
    if p.len() == 0 {
        push_all(&mut out, r);
    }
    assert(s@.subrange(i as int, s.len() as int) =~= Seq::<char>::empty());
    out
}

} // verus!
