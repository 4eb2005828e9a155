//! Which handler an incoming request goes to: its method, and the segments
//! of its path once the surrounding slashes are trimmed.

use vstd::prelude::*;
use vstd::string::*;
use crate::text::{Pattern, trim_spec, trim_bounds, chars_of, lemma_trim_outer};

verus! {

/// The method of an HTTP request.
#[derive(Clone, Debug, PartialEq, Eq)]
pub enum Method {
    Get,
    Head,
    Post,
    Put,
    Delete,
    Connect,
    Options,
    Trace,
    Patch,
    Other(String),
}

/// Where a request goes.
#[derive(Clone, Debug, PartialEq, Eq)]
pub enum Route {
    /// `GET /api/counter`: the counter under the default key.
    DefaultCounter,
    /// `GET /api/counter/<name>`: the counter under `<name>`.
    NamedCounter(String),
    /// Any other `GET`: the static asset at this path, with the surrounding
    /// slashes trimmed.
    Asset(String),
    /// A request with any other method.
    NotFound,
}

/// A [`Route`] with its strings as character sequences.
pub enum RouteView {
    DefaultCounter,
    NamedCounter(Seq<char>),
    Asset(Seq<char>),
    NotFound,
}

impl View for Route {
    type V = RouteView;

    open spec fn view(&self) -> RouteView {
        match self {
            Route::DefaultCounter => RouteView::DefaultCounter,
            Route::NamedCounter(name) => RouteView::NamedCounter(name@),
            Route::Asset(path) => RouteView::Asset(path@),
            Route::NotFound => RouteView::NotFound,
        }
    }
}

/// The pieces of `s` between the `'/'` characters, as `s.split('/')`
/// yields them: one more piece than there are slashes, empty ones included.
pub open spec fn split_segments(s: Seq<char>) -> Seq<Seq<char>>
    decreases s.len(),
{
    if s.len() == 0 {
        seq![Seq::<char>::empty()]
    } else {
        let init = split_segments(s.drop_last());
        if s.last() == '/' {
            init.push(Seq::<char>::empty())
        } else {
            init.update(init.len() - 1, init.last().push(s.last()))
        }
    }
}

/// The pieces joined with `'/'` between them, as `segments.join("/")` does.
pub open spec fn join_segments(segs: Seq<Seq<char>>) -> Seq<char>
    decreases segs.len(),
{
    if segs.len() == 0 {
        Seq::<char>::empty()
    } else if segs.len() == 1 {
        segs[0]
    } else {
        join_segments(segs.drop_last()) + seq!['/'] + segs.last()
    }
}

/// The path segment `api`.
pub open spec fn api_segment() -> Seq<char> {
    seq!['a', 'p', 'i']
}

/// The path segment `counter`.
pub open spec fn counter_segment() -> Seq<char> {
    seq!['c', 'o', 'u', 'n', 't', 'e', 'r']
}

/// The segments of a request path: the path with its leading and trailing
/// slashes trimmed, split at each remaining slash.
pub open spec fn path_segments(path: Seq<char>) -> Seq<Seq<char>> {
    split_segments(trim_spec(path, Pattern::Slash))
}

/// Where a request with this method and path goes.
pub open spec fn route_spec(is_get: bool, path: Seq<char>) -> RouteView {
    let segs = path_segments(path);
    if !is_get {
        RouteView::NotFound
    } else if segs.len() == 2 && segs[0] == api_segment() && segs[1] == counter_segment() {
        RouteView::DefaultCounter
    } else if segs.len() == 3 && segs[0] == api_segment() && segs[1] == counter_segment() {
        RouteView::NamedCounter(segs[2])
    } else {
        RouteView::Asset(join_segments(segs))
    }
}

proof fn lemma_split_len(s: Seq<char>)
    ensures
        split_segments(s).len() >= 1,
    decreases s.len(),
{
    if s.len() > 0 {
        lemma_split_len(s.drop_last());
    }
}

proof fn lemma_join_update_last(segs: Seq<Seq<char>>, c: char)
    requires
        segs.len() >= 1,
    ensures
        join_segments(segs.update(segs.len() - 1, segs.last().push(c))) == join_segments(
            segs,
        ).push(c),
{
    let u = segs.update(segs.len() - 1, segs.last().push(c));
    if segs.len() == 1 {
        assert(u[0] == segs[0].push(c));
    } else {
        assert(u.drop_last() =~= segs.drop_last());
        assert(u.last() == segs.last().push(c));
        assert(join_segments(u) =~= join_segments(segs).push(c));
    }
}

/// Joining the segments of a text with `'/'` gives the text back.
pub proof fn lemma_join_split(s: Seq<char>)
    ensures
        join_segments(split_segments(s)) == s,
    decreases s.len(),
{
    if s.len() == 0 {
        assert(join_segments(split_segments(s)) =~= s);
    } else {
        let t = s.drop_last();
        lemma_join_split(t);
        lemma_split_len(t);
        let init = split_segments(t);
        if s.last() == '/' {
            let segs = init.push(Seq::<char>::empty());
            assert(segs.drop_last() =~= init);
            assert(join_segments(segs) =~= s);
        } else {
            lemma_join_update_last(init, s.last());
            assert(t.push(s.last()) =~= s);
        }
    }
}

/// Slashes around a path do not change where a request goes:
/// `/p`, `p/` and `p` are routed alike.
pub proof fn lemma_route_ignores_outer_slashes(is_get: bool, path: Seq<char>)
    ensures
        route_spec(is_get, seq!['/'] + path) == route_spec(is_get, path),
        route_spec(is_get, path.push('/')) == route_spec(is_get, path),
{
    lemma_trim_outer(path, '/', Pattern::Slash);
}

/// No character of `s` is a slash.
pub open spec fn has_no_slash(s: Seq<char>) -> bool {
    forall|i: int| 0 <= i < s.len() ==> s[i] != '/'
}

proof fn lemma_split_no_slash(s: Seq<char>)
    requires
        has_no_slash(s),
    ensures
        split_segments(s) == seq![s],
    decreases s.len(),
{
    if s.len() > 0 {
        let t = s.drop_last();
        assert(has_no_slash(t)) by {
            assert forall|i: int| 0 <= i < t.len() implies t[i] != '/' by {
                assert(t[i] == s[i]);
            }
        }
        lemma_split_no_slash(t);
        assert(t.push(s.last()) =~= s);
        assert(split_segments(s) =~= seq![s]);
    } else {
        assert(s =~= Seq::<char>::empty());
    }
}

proof fn lemma_split_concat(x: Seq<char>, y: Seq<char>)
    ensures
        split_segments(x + seq!['/'] + y) == split_segments(x) + split_segments(y),
    decreases y.len(),
{
    let xs = x + seq!['/'];
    if y.len() == 0 {
        assert(xs + y =~= xs);
        assert(xs.drop_last() =~= x);
        assert(split_segments(xs) =~= split_segments(x) + split_segments(y));
    } else {
        let y0 = y.drop_last();
        lemma_split_concat(x, y0);
        lemma_split_len(y0);
        lemma_split_len(x);
        assert((xs + y).drop_last() =~= xs + y0);
        assert((xs + y).last() == y.last());
        let a = split_segments(x);
        let b = split_segments(y0);
        if y.last() == '/' {
            assert((a + b).push(Seq::<char>::empty()) =~= a + b.push(Seq::<char>::empty()));
        } else {
            let c = y.last();
            assert((a + b).update((a + b).len() - 1, (a + b).last().push(c)) =~= a + b.update(
                b.len() - 1,
                b.last().push(c),
            ));
        }
    }
}

proof fn lemma_split_pieces_no_slash(s: Seq<char>)
    ensures
        forall|k: int|
            0 <= k < split_segments(s).len() ==> has_no_slash(#[trigger] split_segments(s)[k]),
    decreases s.len(),
{
    if s.len() > 0 {
        let t = s.drop_last();
        lemma_split_pieces_no_slash(t);
        lemma_split_len(t);
        let init = split_segments(t);
        assert forall|k: int|
            0 <= k < split_segments(s).len() implies has_no_slash(
            #[trigger] split_segments(s)[k],
        ) by {
            if s.last() != '/' && k == init.len() - 1 {
                let piece = init.last().push(s.last());
                assert(split_segments(s)[k] == piece);
                assert forall|i: int| 0 <= i < piece.len() implies piece[i] != '/' by {
                    if i < piece.len() - 1 {
                        assert(piece[i] == init.last()[i]);
                    }
                }
            } else if k < init.len() {
                assert(split_segments(s)[k] == init[k]);
            } else {
                assert(split_segments(s)[k] == Seq::<char>::empty());
            }
        }
    }
}

/// The path `api/counter`.
pub open spec fn default_counter_path() -> Seq<char> {
    api_segment() + seq!['/'] + counter_segment()
}

/// Where a request goes, told by its method and its path with the outer
/// slashes trimmed (`t` below): any method but `GET` goes nowhere; a `GET`
/// of exactly `api/counter` goes to the default counter; a `GET` of
/// `api/counter/<name>`, where `<name>` holds no slash, goes to the counter
/// `<name>`; and every other `GET` goes to the static asset at `t` itself.
pub proof fn lemma_route_by_trimmed_path(is_get: bool, path: Seq<char>, name: Seq<char>)
    ensures
        ({
            let t = trim_spec(path, Pattern::Slash);
            let r = route_spec(is_get, path);
            &&& !is_get ==> r == RouteView::NotFound
            &&& is_get ==> (r == RouteView::DefaultCounter <==> t == default_counter_path())
            &&& is_get ==> (r == RouteView::NamedCounter(name) <==> (t == default_counter_path()
                + seq!['/'] + name && has_no_slash(name)))
            &&& is_get ==> (r is DefaultCounter || r is NamedCounter || r == RouteView::Asset(t))
        }),
{
    let t = trim_spec(path, Pattern::Slash);
    let segs = split_segments(t);
    let r = route_spec(is_get, path);
    lemma_join_split(t);
    lemma_split_pieces_no_slash(t);
    let api = api_segment();
    let counter = counter_segment();
    assert(has_no_slash(api));
    assert(has_no_slash(counter));
    lemma_split_no_slash(api);
    lemma_split_no_slash(counter);
    lemma_split_concat(api, counter);
    assert(split_segments(default_counter_path()) =~= seq![api, counter]);
    if is_get {
        if segs.len() == 2 && segs[0] == api && segs[1] == counter {
            assert(segs.drop_last() =~= seq![api]);
            assert(join_segments(seq![api]) == api);
            assert(join_segments(segs) == join_segments(segs.drop_last()) + seq!['/'] + segs.last());
            assert(t =~= default_counter_path());
        }
        if segs.len() == 3 && segs[0] == api && segs[1] == counter {
            let d = segs.drop_last();
            assert(d =~= seq![api, counter]);
            assert(d.drop_last() =~= seq![api]);
            assert(join_segments(seq![api]) == api);
            assert(join_segments(d) == join_segments(d.drop_last()) + seq!['/'] + d.last());
            assert(join_segments(d) =~= default_counter_path());
            assert(join_segments(segs) == join_segments(d) + seq!['/'] + segs.last());
            assert(has_no_slash(segs[2]));
            assert(t =~= default_counter_path() + seq!['/'] + segs[2]);
            assert(t != default_counter_path()) by {
                assert(t.len() > default_counter_path().len());
            }
        }
        if t == default_counter_path() + seq!['/'] + name && has_no_slash(name) {
            lemma_split_no_slash(name);
            lemma_split_concat(default_counter_path(), name);
            assert(segs =~= seq![api, counter, name]);
        }
    }
}

/// The pieces of `chars` that the index pairs `bounds` delimit.
pub open spec fn bounded_segments(chars: Seq<char>, bounds: Seq<(usize, usize)>) -> Seq<Seq<char>> {
    bounds.map_values(|b: (usize, usize)| chars.subrange(b.0 as int, b.1 as int))
}

/// The bounds of the segments of `chars[from..to]`, split at each `'/'`.
fn split_bounds(chars: &Vec<char>, from: usize, to: usize) -> (bounds: Vec<(usize, usize)>)
    requires
        from <= to <= chars@.len(),
    ensures
        bounded_segments(chars@, bounds@) == split_segments(
            chars@.subrange(from as int, to as int),
        ),
        forall|k: int|
            0 <= k < bounds@.len() ==> from <= #[trigger] bounds@[k].0 <= bounds@[k].1 <= to,
{
    let mut bounds: Vec<(usize, usize)> = Vec::new();
    let mut seg_start = from;
    let mut i = from;
    assert(chars@.subrange(from as int, from as int) =~= Seq::<char>::empty());
    assert(bounded_segments(chars@, bounds@) =~= Seq::<Seq<char>>::empty());
    assert(bounded_segments(chars@, bounds@).push(chars@.subrange(seg_start as int, i as int))
        =~~= split_segments(chars@.subrange(from as int, i as int)));
    while i < to
        invariant
            from <= seg_start <= i <= to <= chars@.len(),
            bounded_segments(chars@, bounds@).push(chars@.subrange(seg_start as int, i as int))
                == split_segments(chars@.subrange(from as int, i as int)),
            forall|k: int|
                0 <= k < bounds@.len() ==> from <= #[trigger] bounds@[k].0 <= bounds@[k].1
                    <= seg_start,
        decreases to - i,
    {
        let ghost old_bounds = bounds@;
        let ghost old_start = seg_start;
        let ghost prefix = chars@.subrange(from as int, i + 1);
        assert(prefix.drop_last() =~= chars@.subrange(from as int, i as int));
        assert(prefix.last() == chars@[i as int]);
        if chars[i] == '/' {
            bounds.push((seg_start, i));
            seg_start = i + 1;
            proof {
                assert(bounded_segments(chars@, bounds@) =~= bounded_segments(
                    chars@,
                    old_bounds,
                ).push(chars@.subrange(old_start as int, i as int)));
                assert(chars@.subrange(seg_start as int, i + 1) =~= Seq::<char>::empty());
                assert(bounded_segments(chars@, bounds@).push(
                    chars@.subrange(seg_start as int, i + 1),
                ) =~= split_segments(prefix));
            }
        } else {
            proof {
                let init = bounded_segments(chars@, bounds@).push(
                    chars@.subrange(seg_start as int, i as int),
                );
                assert(chars@.subrange(seg_start as int, i as int).push(chars@[i as int])
                    =~= chars@.subrange(seg_start as int, i + 1));
                assert(init.update(init.len() - 1, init.last().push(chars@[i as int]))
                    =~= bounded_segments(chars@, bounds@).push(
                    chars@.subrange(seg_start as int, i + 1),
                ));
            }
        }
        i = i + 1;
    }
    let ghost before = bounds@;
    bounds.push((seg_start, to));
    assert(bounded_segments(chars@, bounds@) =~= bounded_segments(chars@, before).push(
        chars@.subrange(seg_start as int, to as int),
    ));
    bounds
}

/// Whether `chars[from..to]` is the segment `api`.
fn is_api_segment(chars: &Vec<char>, from: usize, to: usize) -> (b: bool)
    requires
        from <= to <= chars@.len(),
    ensures
        b == (chars@.subrange(from as int, to as int) == api_segment()),
{
    let b = to - from == 3 && chars[from] == 'a' && chars[from + 1] == 'p' && chars[from + 2]
        == 'i';
    proof {
        let s = chars@.subrange(from as int, to as int);
        let w = api_segment();
        if s == w {
            assert(s.len() == 3);
            assert(chars@[from as int] == s[0] && s[0] == w[0]);
            assert(chars@[from + 1] == s[1] && s[1] == w[1]);
            assert(chars@[from + 2] == s[2] && s[2] == w[2]);
        }
        if b {
            assert(forall|k: int| 0 <= k < 3 ==> s[k] == chars@[from + k]);
            assert(s =~= w);
        }
    }
    b
}

/// Whether `chars[from..to]` is the segment `counter`.
fn is_counter_segment(chars: &Vec<char>, from: usize, to: usize) -> (b: bool)
    requires
        from <= to <= chars@.len(),
    ensures
        b == (chars@.subrange(from as int, to as int) == counter_segment()),
{
    let b = to - from == 7 && chars[from] == 'c' && chars[from + 1] == 'o' && chars[from + 2]
        == 'u' && chars[from + 3] == 'n' && chars[from + 4] == 't' && chars[from + 5] == 'e'
        && chars[from + 6] == 'r';
    proof {
        let s = chars@.subrange(from as int, to as int);
        let w = counter_segment();
        if s == w {
            assert(s.len() == 7);
            assert(forall|k: int| 0 <= k < 7 ==> chars@[from + k] == #[trigger] s[k]);
            assert(s[0] == w[0] && s[1] == w[1] && s[2] == w[2] && s[3] == w[3]);
            assert(s[4] == w[4] && s[5] == w[5] && s[6] == w[6]);
        }
        if b {
            assert(forall|k: int| 0 <= k < 7 ==> s[k] == chars@[from + k]);
            assert(s =~= w);
        }
    }
    b
}

/// Where a request with method `method` and path `path` goes.
pub fn route(method: &Method, path: &str) -> (r: Route)
    ensures
        r@ == route_spec(*method is Get, path@),
{
    let is_get = match method {
        Method::Get => true,
        _ => false,
    };
    if !is_get {
        return Route::NotFound;
    }
    let chars = chars_of(path);
    let n = chars.len();
    let (a, b) = trim_bounds(&chars, 0, n, Pattern::Slash);
    assert(chars@.subrange(0, n as int) =~= chars@);
    let bounds = split_bounds(&chars, a, b);
    let ghost segs = path_segments(path@);
    assert(segs == bounded_segments(chars@, bounds@));
    if bounds.len() >= 2 && bounds.len() <= 3 {
        let (s0, e0) = bounds[0];
        let (s1, e1) = bounds[1];
        assert(segs[0] == chars@.subrange(s0 as int, e0 as int));
        assert(segs[1] == chars@.subrange(s1 as int, e1 as int));
        if is_api_segment(&chars, s0, e0) && is_counter_segment(&chars, s1, e1) {
            if bounds.len() == 2 {
                return Route::DefaultCounter;
            } else {
                let (s2, e2) = bounds[2];
                assert(segs[2] == chars@.subrange(s2 as int, e2 as int));
                return Route::NamedCounter(String::from_str(path.substring_char(s2, e2)));
            }
        }
    }
    proof {
        lemma_join_split(chars@.subrange(a as int, b as int));
    }
    Route::Asset(String::from_str(path.substring_char(a, b)))
}

} // verus!
