//! Character-level helpers shared by the counter codec, the router and the
//! asset resolver: whitespace classification and trimming of matching runs.

use vstd::prelude::*;
use vstd::string::*;

verus! {

/// The characters of Unicode's `White_Space` property, which is what
/// `char::is_whitespace` (and so `str::trim`) recognises.
pub open spec fn is_whitespace_spec(c: char) -> bool {
    let u = c as u32;
    ||| 0x09 <= u <= 0x0d
    ||| u == 0x20 || u == 0x85 || u == 0xa0 || u == 0x1680
    ||| 0x2000 <= u <= 0x200a
    ||| u == 0x2028 || u == 0x2029 || u == 0x202f || u == 0x205f || u == 0x3000
}

/// Whether `c` is Unicode white space.
pub fn is_whitespace(c: char) -> (b: bool)
    ensures
        b == is_whitespace_spec(c),
{
    let u = c as u32;
    (0x09 <= u && u <= 0x0d) || u == 0x20 || u == 0x85 || u == 0xa0 || u == 0x1680 || (0x2000
        <= u && u <= 0x200a) || u == 0x2028 || u == 0x2029 || u == 0x202f || u == 0x205f || u
        == 0x3000
}

/// What a trim removes: white space, as `str::trim` does, or the `'/'`
/// character, as `trim_matches('/')` and `trim_start_matches('/')` do.
#[derive(Clone, Copy, Debug, PartialEq, Eq, Structural)]
pub enum Pattern {
    Whitespace,
    Slash,
}

/// Whether `c` is removed by a trim with pattern `p`.
pub open spec fn matches_spec(p: Pattern, c: char) -> bool {
    match p {
        Pattern::Whitespace => is_whitespace_spec(c),
        Pattern::Slash => c == '/',
    }
}

/// Whether `c` is removed by a trim with pattern `p`.
pub fn matches(p: Pattern, c: char) -> (b: bool)
    ensures
        b == matches_spec(p, c),
{
    match p {
        Pattern::Whitespace => is_whitespace(c),
        Pattern::Slash => c == '/',
    }
}

/// `s` without its leading run of characters that match `p`.
pub open spec fn trim_start_spec(s: Seq<char>, p: Pattern) -> Seq<char>
    decreases s.len(),
{
    if s.len() > 0 && matches_spec(p, s[0]) {
        trim_start_spec(s.drop_first(), p)
    } else {
        s
    }
}

/// `s` without its trailing run of characters that match `p`.
pub open spec fn trim_end_spec(s: Seq<char>, p: Pattern) -> Seq<char>
    decreases s.len(),
{
    if s.len() > 0 && matches_spec(p, s.last()) {
        trim_end_spec(s.drop_last(), p)
    } else {
        s
    }
}

/// `s` without the matching characters at either end.
pub open spec fn trim_spec(s: Seq<char>, p: Pattern) -> Seq<char> {
    trim_end_spec(trim_start_spec(s, p), p)
}

/// Trimming the start of a text with one more character at its end.
pub proof fn lemma_trim_start_push(s: Seq<char>, c: char, p: Pattern)
    ensures
        trim_start_spec(s.push(c), p) == (if trim_start_spec(s, p).len() == 0 {
            trim_start_spec(seq![c], p)
        } else {
            trim_start_spec(s, p).push(c)
        }),
    decreases s.len(),
{
    if s.len() == 0 {
        assert(s.push(c) =~= seq![c]);
    } else {
        assert(s.push(c).drop_first() =~= s.drop_first().push(c));
        if matches_spec(p, s[0]) {
            lemma_trim_start_push(s.drop_first(), c, p);
        }
    }
}

/// A matching character added at either end of a text is trimmed away.
pub proof fn lemma_trim_outer(s: Seq<char>, c: char, p: Pattern)
    requires
        matches_spec(p, c),
    ensures
        trim_spec(seq![c] + s, p) == trim_spec(s, p),
        trim_spec(s.push(c), p) == trim_spec(s, p),
{
    assert((seq![c] + s).drop_first() =~= s);
    lemma_trim_start_push(s, c, p);
    let t = trim_start_spec(s, p);
    if t.len() == 0 {
        assert(seq![c].drop_first() =~= Seq::<char>::empty());
        assert(trim_start_spec(seq![c], p) == trim_start_spec(Seq::<char>::empty(), p));
    } else {
        assert(t.push(c).drop_last() =~= t);
    }
}

/// A text that a trim leaves as it is neither starts nor ends with a
/// character that the trim removes.
pub proof fn lemma_trim_untouched(s: Seq<char>, p: Pattern)
    requires
        trim_spec(s, p) == s,
        s.len() > 0,
    ensures
        !matches_spec(p, s[0]),
        !matches_spec(p, s.last()),
{
    lemma_trim_start_shrinks(s, p);
    if matches_spec(p, s[0]) {
        lemma_trim_start_shrinks(s.drop_first(), p);
        lemma_trim_end_shrinks(trim_start_spec(s, p), p);
    }
    if matches_spec(p, s.last()) {
        lemma_trim_start_shrinks(s, p);
        let t = trim_start_spec(s, p);
        lemma_trim_end_shrinks(t, p);
        if t.len() == s.len() {
            lemma_trim_start_keeps_suffix(s, p);
            assert(t.last() == s.last());
            lemma_trim_end_shrinks(t.drop_last(), p);
        }
    }
}

proof fn lemma_trim_start_shrinks(s: Seq<char>, p: Pattern)
    ensures
        trim_start_spec(s, p).len() <= s.len(),
    decreases s.len(),
{
    if s.len() > 0 && matches_spec(p, s[0]) {
        lemma_trim_start_shrinks(s.drop_first(), p);
    }
}

proof fn lemma_trim_end_shrinks(s: Seq<char>, p: Pattern)
    ensures
        trim_end_spec(s, p).len() <= s.len(),
    decreases s.len(),
{
    if s.len() > 0 && matches_spec(p, s.last()) {
        lemma_trim_end_shrinks(s.drop_last(), p);
    }
}

proof fn lemma_trim_start_keeps_suffix(s: Seq<char>, p: Pattern)
    ensures
        trim_start_spec(s, p) == s.subrange(s.len() - trim_start_spec(s, p).len(), s.len() as int),
    decreases s.len(),
{
    if s.len() > 0 && matches_spec(p, s[0]) {
        lemma_trim_start_keeps_suffix(s.drop_first(), p);
        lemma_trim_start_shrinks(s.drop_first(), p);
        let t = trim_start_spec(s, p);
        assert(s.drop_first().subrange(s.len() - 1 - t.len(), s.len() - 1) =~= s.subrange(
            s.len() - t.len(),
            s.len() as int,
        ));
    } else {
        assert(s.subrange(0, s.len() as int) =~= s);
    }
}

/// What trimming the start leaves: a suffix of the text, all of whose
/// removed characters match, and which does not start with a matching one.
pub proof fn lemma_trim_start_suffix(s: Seq<char>, p: Pattern)
    ensures
        ({
            let r = trim_start_spec(s, p);
            &&& r.len() <= s.len()
            &&& r == s.subrange(s.len() - r.len(), s.len() as int)
            &&& forall|i: int| 0 <= i < s.len() - r.len() ==> matches_spec(p, #[trigger] s[i])
            &&& r.len() > 0 ==> !matches_spec(p, r[0])
        }),
    decreases s.len(),
{
    lemma_trim_start_shrinks(s, p);
    lemma_trim_start_keeps_suffix(s, p);
    if s.len() > 0 && matches_spec(p, s[0]) {
        let t = s.drop_first();
        lemma_trim_start_suffix(t, p);
        let r = trim_start_spec(s, p);
        assert forall|i: int| 0 <= i < s.len() - r.len() implies matches_spec(p, #[trigger] s[i]) by {
            if i > 0 {
                assert(s[i] == t[i - 1]);
            }
        }
    }
}

/// Matching characters put around a text are all trimmed away.
pub proof fn lemma_trim_surrounding(s: Seq<char>, w1: Seq<char>, w2: Seq<char>, p: Pattern)
    requires
        forall|i: int| 0 <= i < w1.len() ==> matches_spec(p, #[trigger] w1[i]),
        forall|i: int| 0 <= i < w2.len() ==> matches_spec(p, #[trigger] w2[i]),
    ensures
        trim_spec(w1 + s + w2, p) == trim_spec(s, p),
    decreases w1.len() + w2.len(),
{
    if w1.len() > 0 {
        let v1 = w1.drop_first();
        assert forall|i: int| 0 <= i < v1.len() implies matches_spec(p, #[trigger] v1[i]) by {
            assert(v1[i] == w1[i + 1]);
        }
        lemma_trim_surrounding(s, v1, w2, p);
        assert(w1[0] == (w1 + s + w2)[0]);
        assert((w1 + s + w2).drop_first() =~= v1 + s + w2);
    } else if w2.len() > 0 {
        let v2 = w2.drop_last();
        assert forall|i: int| 0 <= i < v2.len() implies matches_spec(p, #[trigger] v2[i]) by {
            assert(v2[i] == w2[i]);
        }
        lemma_trim_surrounding(s, w1, v2, p);
        assert(w1 + s + w2 =~= (w1 + s + v2).push(w2.last()));
        assert(w1 + s + v2 =~= s + v2);
        assert(w1 + s =~= s);
        assert(matches_spec(p, w2[w2.len() - 1]));
        lemma_trim_outer(s + v2, w2.last(), p);
    } else {
        assert(w1 + s + w2 =~= s);
    }
}

/// The characters of `s`, one by one.
pub fn chars_of(s: &str) -> (v: Vec<char>)
    ensures
        v@ == s@,
{
    let n = s.unicode_len();
    let mut v: Vec<char> = Vec::new();
    let mut i: usize = 0;
    while i < n
        invariant
            n == s@.len(),
            i <= n,
            v@ == s@.subrange(0, i as int),
        decreases n - i,
    {
        v.push(s.get_char(i));
        i = i + 1;
        assert(v@ =~= s@.subrange(0, i as int));
    }
    assert(v@ =~= s@);
    v
}

/// The index where the characters of `chars[from..to]` that `p` trims from
/// the start end.
pub fn skip_leading(chars: &Vec<char>, from: usize, to: usize, p: Pattern) -> (r: usize)
    requires
        from <= to <= chars@.len(),
    ensures
        from <= r <= to,
        chars@.subrange(r as int, to as int) == trim_start_spec(
            chars@.subrange(from as int, to as int),
            p,
        ),
{
    let mut i = from;
    while i < to && matches(p, chars[i])
        invariant
            from <= i <= to <= chars@.len(),
            trim_start_spec(chars@.subrange(i as int, to as int), p) == trim_start_spec(
                chars@.subrange(from as int, to as int),
                p,
            ),
        decreases to - i,
    {
        assert(chars@.subrange(i as int, to as int).drop_first() =~= chars@.subrange(
            i + 1,
            to as int,
        ));
        i = i + 1;
    }
    i
}

/// The index where the characters of `chars[from..to]` that `p` trims from
/// the end begin.
pub fn skip_trailing(chars: &Vec<char>, from: usize, to: usize, p: Pattern) -> (r: usize)
    requires
        from <= to <= chars@.len(),
    ensures
        from <= r <= to,
        chars@.subrange(from as int, r as int) == trim_end_spec(
            chars@.subrange(from as int, to as int),
            p,
        ),
{
    let mut j = to;
    while j > from && matches(p, chars[j - 1])
        invariant
            from <= j <= to <= chars@.len(),
            trim_end_spec(chars@.subrange(from as int, j as int), p) == trim_end_spec(
                chars@.subrange(from as int, to as int),
                p,
            ),
        decreases j - from,
    {
        assert(chars@.subrange(from as int, j as int).drop_last() =~= chars@.subrange(
            from as int,
            j - 1,
        ));
        j = j - 1;
    }
    j
}

/// The bounds of `chars[from..to]` with the characters that `p` matches
/// removed from both ends.
pub fn trim_bounds(chars: &Vec<char>, from: usize, to: usize, p: Pattern) -> (r: (usize, usize))
    requires
        from <= to <= chars@.len(),
    ensures
        from <= r.0 <= r.1 <= to,
        chars@.subrange(r.0 as int, r.1 as int) == trim_spec(
            chars@.subrange(from as int, to as int),
            p,
        ),
{
    let a = skip_leading(chars, from, to, p);
    let b = skip_trailing(chars, a, to, p);
    (a, b)
}

} // verus!
