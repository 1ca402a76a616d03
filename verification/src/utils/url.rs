//! Splitting request paths into segments and matching them against route
//! patterns with single-segment wildcards.

use vstd::prelude::*;
use vstd::std_specs::iter::IteratorSpec;
use vstd::string::*;

verus! {

/// The number of characters of `s` that stand before the first `stop`
/// (all of them, if `s` holds no `stop`).
pub open spec fn span_before(s: Seq<char>, stop: char) -> nat
    decreases s.len(),
{
    if s.len() == 0 || s[0] == stop {
        0
    } else {
        1 + span_before(s.drop_first(), stop)
    }
}

/// The non-empty pieces that remain when `s` is cut at every `'/'`.
pub open spec fn segments(s: Seq<char>) -> Seq<Seq<char>>
    decreases s.len(),
{
    let n = span_before(s, '/') as int;
    if s.len() == 0 {
        Seq::empty()
    } else {
        let rest = if n < s.len() {
            segments(s.skip(n + 1))
        } else {
            Seq::empty()
        };
        if n == 0 {
            rest
        } else {
            seq![s.take(n)] + rest
        }
    }
}

/// The part of `url` before its query string.
pub open spec fn path_part(url: Seq<char>) -> Seq<char> {
    url.take(span_before(url, '?') as int)
}

/// The segments of the path of `url`: the query string is dropped, the path is
/// cut at every `'/'`, and empty pieces are left out.
pub open spec fn path_chunks(url: Seq<char>) -> Seq<Seq<char>> {
    segments(path_part(url))
}

/// `span_before(s, stop)` is a position of `s` (or its length), no character
/// before it is `stop`, and the character at it, if any, is `stop`.
pub proof fn lemma_span_before_bounds(s: Seq<char>, stop: char)
    ensures
        span_before(s, stop) <= s.len(),
        forall|j: int| 0 <= j < span_before(s, stop) ==> s[j] != stop,
        span_before(s, stop) < s.len() ==> s[span_before(s, stop) as int] == stop,
    decreases s.len(),
{
    if s.len() == 0 || s[0] == stop {
    } else {
        let t = s.drop_first();
        lemma_span_before_bounds(t, stop);
        assert forall|j: int| 0 <= j < span_before(s, stop) implies s[j] != stop by {
            if j > 0 {
                assert(s[j] == t[j - 1]);
            }
        }
    }
}

/// The first position `k` of `s` that holds `stop` (or the length of `s`, if
/// none does) is `span_before(s, stop)`.
pub proof fn lemma_span_before_is(s: Seq<char>, stop: char, k: int)
    requires
        0 <= k <= s.len(),
        forall|j: int| 0 <= j < k ==> s[j] != stop,
        k < s.len() ==> s[k] == stop,
    ensures
        span_before(s, stop) == k,
{
    lemma_span_before_bounds(s, stop);
}

/// Cutting `s` at its first `'/'`, which stands at `k`: the piece before it
/// counts unless it is empty, and the rest is cut likewise.
pub proof fn lemma_segments_at_slash(s: Seq<char>, k: int)
    requires
        0 <= k < s.len(),
        forall|j: int| 0 <= j < k ==> s[j] != '/',
        s[k] == '/',
    ensures
        segments(s) == if k == 0 {
            segments(s.skip(k + 1))
        } else {
            seq![s.take(k)] + segments(s.skip(k + 1))
        },
{
    lemma_span_before_is(s, '/', k);
}

/// A sequence without `'/'` is one segment, or none if it is empty.
pub proof fn lemma_segments_without_slash(s: Seq<char>)
    requires
        forall|j: int| 0 <= j < s.len() ==> s[j] != '/',
    ensures
        segments(s) == if s.len() == 0 {
            Seq::<Seq<char>>::empty()
        } else {
            seq![s]
        },
{
    lemma_span_before_is(s, '/', s.len() as int);
    if s.len() > 0 {
        assert(s.take(s.len() as int) =~= s);
    }
}

/// Every segment holds at least one character, none of them is `'/'`, and
/// all of them are characters of `s`.
pub proof fn lemma_segments_are_whole(s: Seq<char>)
    ensures
        forall|i: int|
            #![trigger segments(s)[i]]
            0 <= i < segments(s).len() ==> {
                &&& segments(s)[i].len() > 0
                &&& !segments(s)[i].contains('/')
                &&& forall|c: char| segments(s)[i].contains(c) ==> s.contains(c)
            },
    decreases s.len(),
{
    if s.len() > 0 {
        lemma_span_before_bounds(s, '/');
        let n = span_before(s, '/') as int;
        if n < s.len() {
            lemma_segments_are_whole(s.skip(n + 1));
        }
        assert forall|i: int| #![trigger segments(s)[i]] 0 <= i < segments(s).len() implies {
            &&& segments(s)[i].len() > 0
            &&& !segments(s)[i].contains('/')
            &&& forall|c: char| segments(s)[i].contains(c) ==> s.contains(c)
        } by {
            let part = segments(s)[i];
            if n > 0 && i == 0 {
                assert(part == s.take(n));
                assert forall|c: char| part.contains(c) implies s.contains(c) && c != '/' by {
                    let j = choose|j: int| 0 <= j < part.len() && part[j] == c;
                    assert(s[j] == c);
                }
            } else {
                let tail = s.skip(n + 1);
                let k = if n > 0 {
                    i - 1
                } else {
                    i
                };
                assert(part == segments(tail)[k]);
                assert forall|c: char| part.contains(c) implies s.contains(c) by {
                    assert(tail.contains(c));
                    let j = choose|j: int| 0 <= j < tail.len() && tail[j] == c;
                    assert(s[j + n + 1] == c);
                }
            }
        }
    }
}

/// Every chunk of a url holds at least one character, and neither `'/'` nor
/// `'?'`.
pub proof fn lemma_chunks_are_whole(url: Seq<char>)
    ensures
        forall|i: int|
            #![trigger path_chunks(url)[i]]
            0 <= i < path_chunks(url).len() ==> {
                &&& path_chunks(url)[i].len() > 0
                &&& !path_chunks(url)[i].contains('/')
                &&& !path_chunks(url)[i].contains('?')
            },
{
    let path = path_part(url);
    lemma_span_before_bounds(url, '?');
    lemma_segments_are_whole(path);
    assert forall|i: int| #![trigger path_chunks(url)[i]] 0 <= i < path_chunks(url).len() implies {
        &&& path_chunks(url)[i].len() > 0
        &&& !path_chunks(url)[i].contains('/')
        &&& !path_chunks(url)[i].contains('?')
    } by {
        if path_chunks(url)[i].contains('?') {
            assert(path.contains('?'));
            let j = choose|j: int| 0 <= j < path.len() && path[j] == '?';
            assert(url[j] == '?');
        }
    }
}

/// A `'/'` at the end of a path adds no segment.
pub proof fn lemma_trailing_slash(s: Seq<char>)
    ensures
        segments(s.push('/')) == segments(s),
    decreases s.len(),
{
    let t = s.push('/');
    lemma_span_before_bounds(s, '/');
    let n = span_before(s, '/') as int;
    lemma_span_before_is(t, '/', n);
    assert(t.take(n) =~= s.take(n));
    if n < s.len() {
        lemma_trailing_slash(s.skip(n + 1));
        assert(t.skip(n + 1) =~= s.skip(n + 1).push('/'));
    } else {
        assert(t.skip(n + 1) =~= Seq::<char>::empty());
        assert(segments(Seq::<char>::empty()) =~= Seq::<Seq<char>>::empty());
    }
}

/// A `'/'` at the head of a path adds no segment.
pub proof fn lemma_leading_slash(s: Seq<char>)
    ensures
        segments(seq!['/'] + s) == segments(s),
{
    let t = seq!['/'] + s;
    assert(t.skip(1) =~= s);
}

/// What follows the first `'?'` of a url plays no part in its segments.
pub proof fn lemma_query_is_dropped(path: Seq<char>, query: Seq<char>)
    requires
        !path.contains('?'),
    ensures
        path_chunks(path + seq!['?'] + query) == segments(path),
        path_chunks(path) == segments(path),
{
    let url = path + seq!['?'] + query;
    lemma_span_before_is(url, '?', path.len() as int);
    lemma_span_before_is(path, '?', path.len() as int);
    assert(url.take(path.len() as int) =~= path);
    assert(path.take(path.len() as int) =~= path);
}

/// Converts a url into its path segments: `/a/:foo` becomes `["a", ":foo"]`.
///
/// The query string (everything from the first `'?'`) is dropped, the path is
/// cut at every `'/'`, and empty pieces are left out. The result is always
/// `Some`.
pub fn to_path_chunks(url: &str) -> (r: Option<Vec<&str>>)
    ensures
        r matches Some(chunks) && chunks.deep_view() == path_chunks(url@),
{
    let ghost path = path_part(url@);
    let ghost end = span_before(url@, '?') as int;
    proof {
        lemma_span_before_bounds(url@, '?');
    }
    // Counting the characters first bounds every position below.
    let len = url.unicode_len();
    let mut chunks: Vec<&str> = Vec::new();
    let mut chars = url.chars();
    let mut start: usize = 0;
    let mut i: usize = 0;
    assert(path.skip(0) =~= path);
    assert(chunks.deep_view() + segments(path) =~= segments(path));
    loop
        invariant_except_break
            chars.remaining() == url@.skip(i as int),
        invariant
            path == url@.take(end),
            0 <= start <= i <= end <= url@.len() == len,
            end < url@.len() ==> url@[end] == '?',
            forall|j: int| 0 <= j < end ==> url@[j] != '?',
            forall|j: int| start <= j < i ==> path[j] != '/',
            segments(path) == chunks.deep_view() + segments(path.skip(start as int)),
        ensures
            i == end,
        decreases url@.len() - i,
    {
        let c = match chars.next() {
            Some(c) => c,
            None => { break; },
        };
        assert(c == url@[i as int]);
        if c == '?' {
            break;
        }
        if c == '/' {
            let ghost tail = path.skip(start as int);
            proof {
                lemma_segments_at_slash(tail, i - start);
                assert(tail.skip(i - start + 1) =~= path.skip(i + 1));
                assert(tail.take(i - start) =~= url@.subrange(start as int, i as int));
            }
            if start < i {
                let chunk = url.substring_char(start, i);
                let ghost before = chunks.deep_view();
                chunks.push(chunk);
                assert(chunks.deep_view() =~= before + seq![chunk@]);
                assert(before + (seq![chunk@] + segments(path.skip(i + 1))) =~= chunks.deep_view()
                    + segments(path.skip(i + 1)));
            }
            start = i + 1;
        }
        i = i + 1;
    }
    let ghost tail = path.skip(start as int);
    proof {
        lemma_segments_without_slash(tail);
        assert(tail =~= url@.subrange(start as int, i as int));
    }
    if start < i {
        let chunk = url.substring_char(start, i);
        let ghost before = chunks.deep_view();
        chunks.push(chunk);
        assert(chunks.deep_view() =~= before + seq![chunk@]);
    } else {
        assert(chunks.deep_view() + Seq::<Seq<char>>::empty() =~= chunks.deep_view());
    }
    Some(chunks)
}

/// A pattern segment that begins with `':'` is a wildcard.
pub open spec fn is_wildcard(segment: Seq<char>) -> bool {
    segment.len() > 0 && segment[0] == ':'
}

/// A wildcard stands for any one segment; any other pattern segment stands
/// for itself alone.
pub open spec fn segment_matches(pattern: Seq<char>, segment: Seq<char>) -> bool {
    is_wildcard(pattern) || pattern == segment
}

/// The two have as many segments, and each pattern segment matches the
/// segment at its position.
pub open spec fn chunks_match(pattern: Seq<Seq<char>>, target: Seq<Seq<char>>) -> bool {
    &&& pattern.len() == target.len()
    &&& forall|i: int| 0 <= i < pattern.len() ==> segment_matches(#[trigger] pattern[i], target[i])
}

/// Whether the request path `path` falls under the route pattern `pattern`.
pub open spec fn route_matches(pattern: Seq<char>, path: Seq<char>) -> bool {
    chunks_match(path_chunks(pattern), path_chunks(path))
}

/// A pattern matches only paths with as many segments as it has: no wildcard
/// stands for more than one segment, or for none.
pub proof fn lemma_segment_counts_agree(pattern: Seq<char>, path: Seq<char>)
    requires
        route_matches(pattern, path),
    ensures
        path_chunks(pattern).len() == path_chunks(path).len(),
{
}

/// A pattern without wildcards matches the paths that have its segments,
/// and no others.
pub proof fn lemma_literal_pattern(pattern: Seq<char>, path: Seq<char>)
    requires
        forall|i: int|
            0 <= i < path_chunks(pattern).len() ==> !is_wildcard(#[trigger] path_chunks(pattern)[i]),
    ensures
        route_matches(pattern, path) <==> path_chunks(pattern) == path_chunks(path),
{
    let p = path_chunks(pattern);
    let t = path_chunks(path);
    if route_matches(pattern, path) {
        assert(p =~= t);
    }
}

/// A pattern whose segments are all wildcards matches every path with as
/// many segments, and no others.
pub proof fn lemma_wildcard_pattern(pattern: Seq<char>, path: Seq<char>)
    requires
        forall|i: int|
            0 <= i < path_chunks(pattern).len() ==> is_wildcard(#[trigger] path_chunks(pattern)[i]),
    ensures
        route_matches(pattern, path) <==> path_chunks(pattern).len() == path_chunks(path).len(),
{
}

/// Whether two strings hold the same characters.
pub fn same_text(a: &str, b: &str) -> (r: bool)
    ensures
        r == (a@ == b@),
{
    let mut xs = a.chars();
    let mut ys = b.chars();
    let ghost mut i: int = 0;
    loop
        invariant
            0 <= i <= a@.len(),
            i <= b@.len(),
            xs.remaining() == a@.skip(i),
            ys.remaining() == b@.skip(i),
            a@.take(i) == b@.take(i),
        decreases a@.len() - i,
    {
        let x = xs.next();
        let y = ys.next();
        match (x, y) {
            (Some(x), Some(y)) => {
                if x != y {
                    assert(a@[i] != b@[i]);
                    return false;
                }
                proof {
                    assert(a@.take(i + 1) =~= a@.take(i).push(a@[i]));
                    assert(b@.take(i + 1) =~= b@.take(i).push(b@[i]));
                    i = i + 1;
                }
            },
            (None, None) => {
                assert(a@ =~= a@.take(i));
                assert(b@ =~= b@.take(i));
                return true;
            },
            _ => {
                assert(a@.len() != b@.len());
                return false;
            },
        }
    }
}

/// Whether `segment` is a wildcard of a route pattern.
pub fn wildcard(segment: &str) -> (r: bool)
    ensures
        r == is_wildcard(segment@),
{
    let mut chars = segment.chars();
    match chars.next() {
        Some(c) => c == ':',
        None => false,
    }
}

/// Compares the segments of a pattern with those of a request path.
pub fn segments_match(pattern: &Vec<&str>, target: &Vec<&str>) -> (r: bool)
    ensures
        r == chunks_match(pattern.deep_view(), target.deep_view()),
{
    if pattern.len() != target.len() {
        return false;
    }
    let mut i: usize = 0;
    while i < pattern.len()
        invariant
            0 <= i <= pattern.len() == target.len(),
            forall|j: int|
                0 <= j < i ==> segment_matches(
                    #[trigger] pattern.deep_view()[j],
                    target.deep_view()[j],
                ),
        decreases pattern.len() - i,
    {
        if !wildcard(pattern[i]) && !same_text(pattern[i], target[i]) {
            assert(!segment_matches(pattern.deep_view()[i as int], target.deep_view()[i as int]));
            return false;
        }
        i = i + 1;
    }
    true
}

/// Whether the request path `path` falls under the route pattern `pattern`:
/// both must have as many segments, a pattern segment that begins with `':'`
/// stands for any one segment, and every other segment must be the same in
/// both. Query strings and empty segments play no part.
pub fn matches_pattern(pattern: &str, path: &str) -> (r: bool)
    ensures
        r == route_matches(pattern@, path@),
{
    match (to_path_chunks(pattern), to_path_chunks(path)) {
        (Some(p), Some(t)) => segments_match(&p, &t),
        _ => false,
    }
}

} // verus!
