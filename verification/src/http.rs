//! The pure parts of serving the API and the UI: where the app is mounted
//! and which request paths name files.

use vstd::prelude::*;
use crate::text::{
    chars_of, is_ws, strip_start, push_span, span_contains, span_eq, spans_view, split, split_spans, strip_both,
    strip_both_span, strip_end, strip_end_span, trim, trim_span, lemma_split_nonempty,
};

verus! {

/// The mount point for a configured base path: `/` and the trimmed path
/// without surrounding slashes, or `None` (mount at the root) for an empty
/// path or one holding `{`, `}`, `?` or `#`.
pub open spec fn base_path(raw: Seq<char>) -> Option<Seq<char>> {
    let t = trim(strip_both(trim(raw), '/'));
    if t.len() == 0 {
        None
    } else if t.contains('{') || t.contains('}') || t.contains('?') || t.contains('#') {
        None
    } else {
        Some(seq!['/'] + t)
    }
}

/// `"/modsim"` for anything shaped like `modsim`, `/modsim`, `/modsim/`;
/// `None` when no base path is configured (mount at the root) or when the
/// path holds characters that would make it a pattern rather than a path.
pub fn normalize_base_path(raw: &str) -> (r: Option<String>)
    ensures
        match base_path(raw@) {
            Some(p) => r matches Some(s) && s@ == p,
            None => r is None,
        },
{
    let v = chars_of(raw);
    assert(v@.subrange(0, v@.len() as int) =~= raw@);
    let (a, b) = trim_span(&v, 0, v.len());
    let (a, b) = strip_both_span(&v, a, b, '/');
    let (a, b) = trim_span(&v, a, b);
    if a == b {
        return None;
    }
    if span_contains(&v, a, b, '{') || span_contains(&v, a, b, '}') || span_contains(&v, a, b, '?')
        || span_contains(&v, a, b, '#') {
        return None;
    }
    let mut s = String::from_str("/");
    push_span(&mut s, &v, a, b);
    proof {
        reveal_strlit("/");
        assert("/"@ =~= seq!['/']);
    }
    Some(s)
}

/// No character of `s` is whitespace.
pub open spec fn no_ws(s: Seq<char>) -> bool {
    forall|i: int| 0 <= i < s.len() ==> !is_ws(#[trigger] s[i])
}

proof fn lemma_trim_no_ws(s: Seq<char>)
    requires
        no_ws(s),
    ensures
        trim(s) == s,
{
    if s.len() > 0 {
        assert(!is_ws(s[0]));
        assert(!is_ws(s.last()));
    }
}

/// `strip_start` drops a prefix, after which the first character (if any)
/// is not `c`.
proof fn lemma_strip_start(s: Seq<char>, c: char) -> (k: int)
    ensures
        0 <= k <= s.len(),
        strip_start(s, c) == s.subrange(k, s.len() as int),
        k < s.len() ==> s[k] != c,
    decreases s.len(),
{
    if s.len() > 0 && s[0] == c {
        let k = lemma_strip_start(s.drop_first(), c);
        assert(s.drop_first().subrange(k, s.len() - 1) =~= s.subrange(k + 1, s.len() as int));
        k + 1
    } else {
        assert(s.subrange(0, s.len() as int) =~= s);
        0
    }
}

/// `strip_end` keeps a prefix whose last character (if any) is not `c`.
proof fn lemma_strip_end(s: Seq<char>, c: char) -> (j: int)
    ensures
        0 <= j <= s.len(),
        strip_end(s, c) == s.subrange(0, j),
        j > 0 ==> s[j - 1] != c,
    decreases s.len(),
{
    if s.len() > 0 && s.last() == c {
        let j = lemma_strip_end(s.drop_last(), c);
        assert(s.drop_last().subrange(0, j) =~= s.subrange(0, j));
        j
    } else {
        assert(s.subrange(0, s.len() as int) =~= s);
        s.len() as int
    }
}

/// Normalizing a base path is idempotent: for a configured path without
/// whitespace, the mount point does not end in `/` and normalizes to
/// itself.
pub proof fn law_base_path_idempotent(raw: Seq<char>)
    requires
        no_ws(raw),
        base_path(raw) is Some,
    ensures
        base_path(raw)->0.last() != '/',
        base_path(base_path(raw)->0) == base_path(raw),
{
    lemma_trim_no_ws(raw);
    let k = lemma_strip_start(raw, '/');
    let u = raw.subrange(k, raw.len() as int);
    let j = lemma_strip_end(u, '/');
    let t = u.subrange(0, j);
    assert(strip_both(raw, '/') == t);
    assert forall|i: int| 0 <= i < t.len() implies !is_ws(#[trigger] t[i]) by {
        assert(t[i] == raw[k + i]);
    }
    lemma_trim_no_ws(t);
    assert(t.len() > 0);
    assert(t[0] == raw[k]);
    assert(t[0] != '/');
    assert(t.last() == u[j - 1]);
    let p = seq!['/'] + t;
    assert(base_path(raw) == Some(p));
    assert(!is_ws('/'));
    assert forall|i: int| 0 <= i < p.len() implies !is_ws(#[trigger] p[i]) by {
        if i > 0 {
            assert(p[i] == t[i - 1]);
        }
    }
    lemma_trim_no_ws(p);
    assert(p.drop_first() =~= t);
    assert(strip_start(t, '/') == t);
    assert(strip_start(p, '/') == t);
    assert(strip_end(t, '/') == t);
    assert(p.last() == t.last());
}

/// The last `/`-separated segment of a path has a `.` in it.
pub open spec fn is_file_path(path: Seq<char>) -> bool {
    split(path, '/').last().contains('.')
}

/// Whether the last path segment carries a file extension.
pub fn looks_like_file(path: &str) -> (r: bool)
    ensures
        r == is_file_path(path@),
{
    let v = chars_of(path);
    assert(v@.subrange(0, v@.len() as int) =~= path@);
    let segments = split_spans(&v, 0, v.len(), '/');
    proof {
        lemma_split_nonempty(path@, '/');
    }
    let (lo, hi) = segments[segments.len() - 1];
    assert(spans_view(v@, segments@)[segments@.len() - 1] == v@.subrange(lo as int, hi as int));
    span_contains(&v, lo, hi, '.')
}

/// The directory the playground lives in, as the browser sees it: the
/// request path without its final `playground` (or `/`), with the
/// forwarded prefix (trailing slashes dropped) put in front unless the path
/// already starts with it.
pub open spec fn playground_dir(path: Seq<char>, prefix: Seq<char>) -> Seq<char> {
    let n = "playground"@.len();
    let dir = if path.len() >= n && path.subrange(path.len() - n, path.len() as int) == "playground"@ {
        path.subrange(0, path.len() - n)
    } else {
        seq!['/']
    };
    let p = strip_end(prefix, '/');
    if p.len() == 0 || (dir.len() >= p.len() && dir.subrange(0, p.len() as int) == p) {
        dir
    } else {
        p + dir
    }
}

/// The playground's GraphQL endpoint and subscription socket URLs; the
/// scheme defaults to `http`, the host to `localhost`, and `https` pages
/// use `wss`.
pub open spec fn playground_links(
    path: Seq<char>,
    scheme: Option<Seq<char>>,
    host: Option<Seq<char>>,
    prefix: Option<Seq<char>>,
) -> (Seq<char>, Seq<char>) {
    let s = match scheme {
        Some(x) => x,
        None => "http"@,
    };
    let h = match host {
        Some(x) => x,
        None => "localhost"@,
    };
    let p = match prefix {
        Some(x) => x,
        None => Seq::<char>::empty(),
    };
    let dir = playground_dir(path, p);
    let ws = if s == "https"@ {
        "wss"@
    } else {
        "ws"@
    };
    (s + "://"@ + h + dir + "graphql"@, ws + "://"@ + h + dir + "graphql/ws"@)
}

/// The view of an optional string.
pub open spec fn opt_view(s: Option<&str>) -> Option<Seq<char>> {
    match s {
        Some(x) => Some(x@),
        None => None,
    }
}

/// A copy of `v[0..k]`.
fn take_chars(v: &Vec<char>, k: usize) -> (r: Vec<char>)
    requires
        k <= v@.len(),
    ensures
        r@ == v@.subrange(0, k as int),
{
    let mut out: Vec<char> = Vec::new();
    let mut i: usize = 0;
    while i < k
        invariant
            i <= k <= v@.len(),
            out@ == v@.subrange(0, i as int),
        decreases k - i,
    {
        out.push(v[i]);
        assert(v@.subrange(0, i + 1) =~= v@.subrange(0, i as int).push(v@[i as int]));
        i = i + 1;
    }
    out
}

/// Whether `b` starts with `a[0..k]`.
fn starts_with_chars(b: &Vec<char>, a: &Vec<char>, k: usize) -> (r: bool)
    requires
        k <= a@.len(),
    ensures
        r == (b@.len() >= k && b@.subrange(0, k as int) == a@.subrange(0, k as int)),
{
    if b.len() < k {
        return false;
    }
    let mut i: usize = 0;
    while i < k
        invariant
            i <= k <= a@.len(),
            k <= b@.len(),
            forall|j: int| 0 <= j < i ==> b@[j] == a@[j],
        decreases k - i,
    {
        if b[i] != a[i] {
            assert(b@.subrange(0, k as int)[i as int] != a@.subrange(0, k as int)[i as int]);
            return false;
        }
        i = i + 1;
    }
    assert(b@.subrange(0, k as int) =~= a@.subrange(0, k as int));
    true
}

fn push_chars(s: &mut String, v: &Vec<char>)
    ensures
        final(s)@ == old(s)@ + v@,
{
    push_span(s, v, 0, v.len());
    assert(v@.subrange(0, v@.len() as int) =~= v@);
}

/// The playground's endpoint and subscription URLs for a request path and
/// the forwarded scheme, host and prefix, where the request carries them.
pub fn playground_endpoints(
    path: &str,
    scheme: Option<&str>,
    host: Option<&str>,
    prefix: Option<&str>,
) -> (r: (String, String))
    ensures
        r.0@ == playground_links(path@, opt_view(scheme), opt_view(host), opt_view(prefix)).0,
        r.1@ == playground_links(path@, opt_view(scheme), opt_view(host), opt_view(prefix)).1,
{
    let pv = chars_of(path);
    let n = "playground".unicode_len();
    let dir = if pv.len() >= n && span_eq(&pv, pv.len() - n, pv.len(), "playground") {
        take_chars(&pv, pv.len() - n)
    } else {
        let mut d: Vec<char> = Vec::new();
        d.push('/');
        d
    };
    let pr = match prefix {
        Some(p) => chars_of(p),
        None => Vec::new(),
    };
    let pe = strip_end_span(&pr, 0, pr.len(), '/');
    let full_dir = if pe == 0 || starts_with_chars(&dir, &pr, pe) {
        dir
    } else {
        let mut d = take_chars(&pr, pe);
        let mut i: usize = 0;
        let ghost d0 = d@;
        while i < dir.len()
            invariant
                i <= dir@.len(),
                d@ == d0 + dir@.subrange(0, i as int),
            decreases dir@.len() - i,
        {
            d.push(dir[i]);
            assert(d0 + dir@.subrange(0, i + 1) =~= (d0 + dir@.subrange(0, i as int)).push(dir@[i as int]));
            i = i + 1;
        }
        assert(dir@.subrange(0, dir@.len() as int) =~= dir@);
        d
    };
    proof {
        let ghost p = match opt_view(prefix) {
            Some(x) => x,
            None => Seq::<char>::empty(),
        };
        assert(pr@ == p);
        assert(pr@.subrange(0, pr@.len() as int) =~= pr@);
        assert(full_dir@ == playground_dir(path@, p));
    }
    let s = match scheme {
        Some(x) => String::from_str(x),
        None => String::from_str("http"),
    };
    let h = match host {
        Some(x) => String::from_str(x),
        None => String::from_str("localhost"),
    };
    let sv = chars_of(s.as_str());
    let secure = span_eq(&sv, 0, sv.len(), "https");
    assert(sv@.subrange(0, sv@.len() as int) =~= sv@);
    let mut endpoint = s.clone();
    endpoint.append("://");
    endpoint.append(h.as_str());
    push_chars(&mut endpoint, &full_dir);
    endpoint.append("graphql");
    let mut subscription = if secure {
        String::from_str("wss")
    } else {
        String::from_str("ws")
    };
    subscription.append("://");
    subscription.append(h.as_str());
    push_chars(&mut subscription, &full_dir);
    subscription.append("graphql/ws");
    (endpoint, subscription)
}

} // verus!
