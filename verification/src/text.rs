//! Text over characters: the string operations the parsers and formatters
//! of this crate are built from, each stated over `Seq<char>`.

use vstd::prelude::*;
use vstd::utf8::*;

verus! {

/// `std::str::from_utf8`, turned into an owned `String`: `Some` exactly when
/// the bytes are valid UTF-8, and then the string is the decoded text (std
/// documents that `from_utf8` fails iff the slice is not UTF-8).
#[verifier::external_body]
pub fn string_from_utf8(bytes: &[u8]) -> (r: Option<String>)
    ensures
        r is Some <==> valid_utf8(bytes@),
        r is Some ==> r->0@ == decode_utf8(bytes@),
{
    match std::str::from_utf8(bytes) {
        Ok(s) => Some(s.to_string()),
        Err(_) => None,
    }
}

/// `String::push`: appends one character.
#[verifier::external_body]
pub fn push_char(s: &mut String, c: char)
    ensures
        final(s)@ == old(s)@.push(c),
{
    s.push(c);
}

/// The characters of `s`, in order.
pub fn chars_of(s: &str) -> (r: Vec<char>)
    ensures
        r@ == s@,
{
    broadcast use vstd::string::group_string_axioms;

    let mut out: Vec<char> = Vec::new();
    for c in it: s.chars()
        invariant
            out@ == it.seq().take(it.index() as int),
            it.seq() == s@,
    {
        out.push(c);
    }
    out
}

/// The characters `v[lo..hi]` as a `String`.
pub fn string_of(v: &Vec<char>, lo: usize, hi: usize) -> (r: String)
    requires
        lo <= hi <= v@.len(),
    ensures
        r@ == v@.subrange(lo as int, hi as int),
{
    let mut out = String::new();
    let mut i = lo;
    while i < hi
        invariant
            lo <= i <= hi <= v@.len(),
            out@ == v@.subrange(lo as int, i as int),
        decreases hi - i,
    {
        push_char(&mut out, v[i]);
        assert(v@.subrange(lo as int, i + 1) =~= v@.subrange(lo as int, i as int).push(v@[i as int]));
        i = i + 1;
    }
    out
}

/// Appends `v[lo..hi]` to `s`.
pub fn push_span(s: &mut String, v: &Vec<char>, lo: usize, hi: usize)
    requires
        lo <= hi <= v@.len(),
    ensures
        final(s)@ == old(s)@ + v@.subrange(lo as int, hi as int),
{
    let mut i = lo;
    while i < hi
        invariant
            lo <= i <= hi <= v@.len(),
            s@ == old(s)@ + v@.subrange(lo as int, i as int),
        decreases hi - i,
    {
        push_char(s, v[i]);
        assert(old(s)@ + v@.subrange(lo as int, i + 1) =~= (old(s)@ + v@.subrange(
            lo as int,
            i as int,
        )).push(v@[i as int]));
        i = i + 1;
    }
}

// ---------------------------------------------------------------------------
// Whitespace and trimming

/// Unicode `White_Space`, the property `char::is_whitespace` tests.
pub open spec fn is_ws(c: char) -> bool {
    let n = c as u32;
    ||| 9 <= n <= 13
    ||| n == 32
    ||| n == 0x85
    ||| n == 0xa0
    ||| n == 0x1680
    ||| 0x2000 <= n <= 0x200a
    ||| n == 0x2028
    ||| n == 0x2029
    ||| n == 0x202f
    ||| n == 0x205f
    ||| n == 0x3000
}

pub fn is_whitespace(c: char) -> (r: bool)
    ensures
        r == is_ws(c),
{
    let n = c as u32;
    (9 <= n && n <= 13) || n == 32 || n == 0x85 || n == 0xa0 || n == 0x1680 || (0x2000 <= n && n
        <= 0x200a) || n == 0x2028 || n == 0x2029 || n == 0x202f || n == 0x205f || n == 0x3000
}

/// `s` without its leading whitespace.
pub open spec fn trim_start(s: Seq<char>) -> Seq<char>
    decreases s.len(),
{
    if s.len() > 0 && is_ws(s[0]) {
        trim_start(s.drop_first())
    } else {
        s
    }
}

/// `s` without its trailing whitespace.
pub open spec fn trim_end(s: Seq<char>) -> Seq<char>
    decreases s.len(),
{
    if s.len() > 0 && is_ws(s.last()) {
        trim_end(s.drop_last())
    } else {
        s
    }
}

/// `str::trim`: `s` without leading and trailing whitespace.
pub open spec fn trim(s: Seq<char>) -> Seq<char> {
    trim_end(trim_start(s))
}

/// `s` without every trailing `c` (`str::trim_end_matches` with a char).
pub open spec fn strip_end(s: Seq<char>, c: char) -> Seq<char>
    decreases s.len(),
{
    if s.len() > 0 && s.last() == c {
        strip_end(s.drop_last(), c)
    } else {
        s
    }
}

/// `s` without every leading and trailing `c` (`str::trim_matches`).
pub open spec fn strip_both(s: Seq<char>, c: char) -> Seq<char> {
    strip_end(strip_start(s, c), c)
}

/// `s` without every leading `c`.
pub open spec fn strip_start(s: Seq<char>, c: char) -> Seq<char>
    decreases s.len(),
{
    if s.len() > 0 && s[0] == c {
        strip_start(s.drop_first(), c)
    } else {
        s
    }
}

/// The bounds of `trim(v[lo..hi])` inside `v`.
pub fn trim_span(v: &Vec<char>, lo: usize, hi: usize) -> (r: (usize, usize))
    requires
        lo <= hi <= v@.len(),
    ensures
        lo <= r.0 <= r.1 <= hi,
        v@.subrange(r.0 as int, r.1 as int) == trim(v@.subrange(lo as int, hi as int)),
{
    let mut a = lo;
    while a < hi && is_whitespace(v[a])
        invariant
            lo <= a <= hi <= v@.len(),
            trim_start(v@.subrange(lo as int, hi as int)) == trim_start(v@.subrange(a as int, hi as int)),
        decreases hi - a,
    {
        assert(v@.subrange(a as int, hi as int).drop_first() =~= v@.subrange(a + 1, hi as int));
        a = a + 1;
    }
    let mut b = hi;
    while b > a && is_whitespace(v[b - 1])
        invariant
            lo <= a <= b <= hi <= v@.len(),
            trim_end(v@.subrange(a as int, hi as int)) == trim_end(v@.subrange(a as int, b as int)),
        decreases b - a,
    {
        assert(v@.subrange(a as int, b as int).drop_last() =~= v@.subrange(a as int, b - 1));
        b = b - 1;
    }
    (a, b)
}

/// The bounds of `v[lo..hi]` without its trailing `c`s.
pub fn strip_end_span(v: &Vec<char>, lo: usize, hi: usize, c: char) -> (r: usize)
    requires
        lo <= hi <= v@.len(),
    ensures
        lo <= r <= hi,
        v@.subrange(lo as int, r as int) == strip_end(v@.subrange(lo as int, hi as int), c),
{
    let mut b = hi;
    while b > lo && v[b - 1] == c
        invariant
            lo <= b <= hi <= v@.len(),
            strip_end(v@.subrange(lo as int, hi as int), c) == strip_end(v@.subrange(lo as int, b as int), c),
        decreases b - lo,
    {
        assert(v@.subrange(lo as int, b as int).drop_last() =~= v@.subrange(lo as int, b - 1));
        b = b - 1;
    }
    b
}

/// The bounds of `strip_both(v[lo..hi], c)` inside `v`.
pub fn strip_both_span(v: &Vec<char>, lo: usize, hi: usize, c: char) -> (r: (usize, usize))
    requires
        lo <= hi <= v@.len(),
    ensures
        lo <= r.0 <= r.1 <= hi,
        v@.subrange(r.0 as int, r.1 as int) == strip_both(v@.subrange(lo as int, hi as int), c),
{
    let mut a = lo;
    while a < hi && v[a] == c
        invariant
            lo <= a <= hi <= v@.len(),
            strip_start(v@.subrange(lo as int, hi as int), c) == strip_start(v@.subrange(a as int, hi as int), c),
        decreases hi - a,
    {
        assert(v@.subrange(a as int, hi as int).drop_first() =~= v@.subrange(a + 1, hi as int));
        a = a + 1;
    }
    let b = strip_end_span(v, a, hi, c);
    (a, b)
}

// ---------------------------------------------------------------------------
// Splitting

/// `str::split` with a single character: the pieces between separators.
pub open spec fn split(s: Seq<char>, sep: char) -> Seq<Seq<char>>
    decreases s.len(),
{
    if s.len() == 0 {
        seq![Seq::<char>::empty()]
    } else {
        let p = split(s.drop_last(), sep);
        if s.last() == sep {
            p.push(Seq::<char>::empty())
        } else {
            p.update(p.len() - 1, p.last().push(s.last()))
        }
    }
}

pub proof fn lemma_split_nonempty(s: Seq<char>, sep: char)
    ensures
        split(s, sep).len() >= 1,
    decreases s.len(),
{
    if s.len() > 0 {
        lemma_split_nonempty(s.drop_last(), sep);
    }
}

/// The pieces that `spans` cut out of `v`.
pub open spec fn spans_view(v: Seq<char>, spans: Seq<(usize, usize)>) -> Seq<Seq<char>> {
    spans.map_values(|p: (usize, usize)| v.subrange(p.0 as int, p.1 as int))
}

/// Every span lies inside `lo..hi`, in order.
pub open spec fn spans_within(spans: Seq<(usize, usize)>, lo: int, hi: int) -> bool {
    forall|k: int| 0 <= k < spans.len() ==> lo <= #[trigger] spans[k].0 <= spans[k].1 <= hi
}

/// The bounds of the pieces of `v[lo..hi]` split at `sep`.
pub fn split_spans(v: &Vec<char>, lo: usize, hi: usize, sep: char) -> (r: Vec<(usize, usize)>)
    requires
        lo <= hi <= v@.len(),
    ensures
        spans_within(r@, lo as int, hi as int),
        spans_view(v@, r@) == split(v@.subrange(lo as int, hi as int), sep),
{
    let mut out: Vec<(usize, usize)> = Vec::new();
    let mut start = lo;
    let mut i = lo;
    assert(v@.subrange(lo as int, lo as int) =~= Seq::<char>::empty());
    assert(spans_view(v@, out@).push(v@.subrange(start as int, i as int)) =~= split(
        v@.subrange(lo as int, i as int),
        sep,
    ));
    while i < hi
        invariant
            lo <= start <= i <= hi <= v@.len(),
            spans_within(out@, lo as int, start as int),
            spans_view(v@, out@).push(v@.subrange(start as int, i as int)) == split(
                v@.subrange(lo as int, i as int),
                sep,
            ),
        decreases hi - i,
    {
        let ghost before = spans_view(v@, out@);
        let ghost old_out = out@;
        assert(v@.subrange(lo as int, i + 1).drop_last() =~= v@.subrange(lo as int, i as int));
        assert(v@.subrange(lo as int, i + 1).last() == v@[i as int]);
        if v[i] == sep {
            let s0 = start;
            out.push((start, i));
            start = i + 1;
            assert(spans_view(v@, out@) =~= before.push(v@.subrange(s0 as int, i as int)));
            assert(v@.subrange(start as int, i + 1) =~= Seq::<char>::empty());
            assert forall|k: int| 0 <= k < out@.len() implies lo <= #[trigger] out@[k].0 <= out@[k].1
                <= start by {
                if k < out@.len() - 1 {
                    assert(out@[k] == old_out[k]);
                }
            }
        } else {
            assert(v@.subrange(start as int, i + 1) =~= v@.subrange(start as int, i as int).push(v@[i as int]));
        }
        i = i + 1;
        assert(spans_view(v@, out@).push(v@.subrange(start as int, i as int)) =~= split(
            v@.subrange(lo as int, i as int),
            sep,
        ));
    }
    out.push((start, hi));
    assert(spans_view(v@, out@) =~= split(v@.subrange(lo as int, hi as int), sep));
    out
}

// ---------------------------------------------------------------------------
// Comparison

/// The code of `c` with ASCII upper case mapped to lower case.
pub open spec fn lower_code(c: char) -> u32 {
    let n = c as u32;
    if 65 <= n <= 90 {
        (n + 32) as u32
    } else {
        n
    }
}

/// `str::eq_ignore_ascii_case`.
pub open spec fn ieq(a: Seq<char>, b: Seq<char>) -> bool {
    a.len() == b.len() && forall|i: int| 0 <= i < a.len() ==> lower_code(#[trigger] a[i]) == lower_code(
        b[i],
    )
}

fn lower_code_of(c: char) -> (r: u32)
    ensures
        r == lower_code(c),
{
    let n = c as u32;
    if 65 <= n && n <= 90 {
        n + 32
    } else {
        n
    }
}

/// Whether `v[lo..hi]` equals `lit` up to ASCII case.
pub fn span_ieq(v: &Vec<char>, lo: usize, hi: usize, lit: &str) -> (r: bool)
    requires
        lo <= hi <= v@.len(),
    ensures
        r == ieq(v@.subrange(lo as int, hi as int), lit@),
{
    let n = lit.unicode_len();
    if hi - lo != n {
        return false;
    }
    let mut i: usize = 0;
    while i < n
        invariant
            n == lit@.len(),
            hi - lo == n,
            lo <= hi <= v@.len(),
            i <= n,
            forall|j: int| 0 <= j < i ==> lower_code(v@[lo + j]) == lower_code(#[trigger] lit@[j]),
        decreases n - i,
    {
        if lower_code_of(v[lo + i]) != lower_code_of(lit.get_char(i)) {
            assert(lower_code(v@.subrange(lo as int, hi as int)[i as int]) != lower_code(lit@[i as int]));
            return false;
        }
        i = i + 1;
    }
    assert forall|j: int| 0 <= j < v@.subrange(lo as int, hi as int).len() implies lower_code(
        #[trigger] v@.subrange(lo as int, hi as int)[j],
    ) == lower_code(lit@[j]) by {
        assert(lower_code(lit@[j]) == lower_code(v@[lo + j]));
    }
    true
}

/// Whether `v[lo..hi]` equals `lit`.
pub fn span_eq(v: &Vec<char>, lo: usize, hi: usize, lit: &str) -> (r: bool)
    requires
        lo <= hi <= v@.len(),
    ensures
        r == (v@.subrange(lo as int, hi as int) == lit@),
{
    let n = lit.unicode_len();
    if hi - lo != n {
        return false;
    }
    let mut i: usize = 0;
    while i < n
        invariant
            n == lit@.len(),
            hi - lo == n,
            lo <= hi <= v@.len(),
            i <= n,
            forall|j: int| 0 <= j < i ==> v@[lo + j] == #[trigger] lit@[j],
        decreases n - i,
    {
        if v[lo + i] != lit.get_char(i) {
            assert(v@.subrange(lo as int, hi as int)[i as int] != lit@[i as int]);
            return false;
        }
        i = i + 1;
    }
    assert(v@.subrange(lo as int, hi as int) =~= lit@);
    true
}

/// Whether `v[lo..hi]` holds `c`.
pub fn span_contains(v: &Vec<char>, lo: usize, hi: usize, c: char) -> (r: bool)
    requires
        lo <= hi <= v@.len(),
    ensures
        r == v@.subrange(lo as int, hi as int).contains(c),
{
    let mut i = lo;
    while i < hi
        invariant
            lo <= i <= hi <= v@.len(),
            forall|j: int| lo <= j < i ==> v@[j] != c,
        decreases hi - i,
    {
        if v[i] == c {
            assert(v@.subrange(lo as int, hi as int)[i - lo] == c);
            return true;
        }
        i = i + 1;
    }
    assert forall|j: int| 0 <= j < v@.subrange(lo as int, hi as int).len() implies v@.subrange(
        lo as int,
        hi as int,
    )[j] != c by {
        assert(v@.subrange(lo as int, hi as int)[j] == v@[lo + j]);
    }
    false
}

// ---------------------------------------------------------------------------
// Integers

pub open spec fn is_digit(c: char) -> bool {
    48 <= c as u32 <= 57
}

pub open spec fn all_digits(s: Seq<char>) -> bool {
    forall|i: int| 0 <= i < s.len() ==> is_digit(#[trigger] s[i])
}

/// The decimal value of a string of digits.
pub open spec fn digits_value(s: Seq<char>) -> nat
    decreases s.len(),
{
    if s.len() == 0 {
        0
    } else {
        digits_value(s.drop_last()) * 10 + ((s.last() as u32) - 48) as nat
    }
}

/// What `str::parse` gives for an unsigned integer type with maximum `max`:
/// an optional `+`, then at least one ASCII digit, and a value in range.
pub open spec fn unsigned_value(s: Seq<char>, max: int) -> Option<int> {
    let body = if s.len() > 0 && s[0] == '+' {
        s.drop_first()
    } else {
        s
    };
    if body.len() > 0 && all_digits(body) && digits_value(body) <= max {
        Some(digits_value(body) as int)
    } else {
        None
    }
}

/// What `str::parse` gives for a signed integer type with range
/// `min..=max`: as `unsigned_value`, or a `-` and digits.
pub open spec fn signed_value(s: Seq<char>, min: int, max: int) -> Option<int> {
    if s.len() > 0 && s[0] == '-' {
        let body = s.drop_first();
        if body.len() > 0 && all_digits(body) && -(digits_value(body) as int) >= min {
            Some(-(digits_value(body) as int))
        } else {
            None
        }
    } else {
        unsigned_value(s, max)
    }
}

proof fn lemma_digits_grow(s: Seq<char>, i: int)
    requires
        0 <= i < s.len(),
        all_digits(s),
    ensures
        digits_value(s.take(i + 1)) >= digits_value(s.take(i)),
        digits_value(s.take(i + 1)) == digits_value(s.take(i)) * 10 + ((s[i] as u32) - 48) as nat,
{
    assert(s.take(i + 1).drop_last() =~= s.take(i));
}

proof fn lemma_digits_mono(s: Seq<char>, i: int)
    requires
        0 <= i <= s.len(),
        all_digits(s),
    ensures
        digits_value(s) >= digits_value(s.take(i)),
    decreases s.len() - i,
{
    if i < s.len() {
        lemma_digits_grow(s, i);
        lemma_digits_mono(s, i + 1);
    } else {
        assert(s.take(i) =~= s);
    }
}

/// The value of the digits `v[lo..hi]` when they are at least one digit
/// and the value is at most `bound`.
fn digits_span(v: &Vec<char>, lo: usize, hi: usize, bound: u64) -> (r: Option<u64>)
    requires
        lo <= hi <= v@.len(),
        bound < 0x1_0000_0000,
    ensures
        ({
            let s = v@.subrange(lo as int, hi as int);
            match r {
                Some(x) => s.len() > 0 && all_digits(s) && digits_value(s) <= bound && x == digits_value(s),
                None => !(s.len() > 0 && all_digits(s) && digits_value(s) <= bound),
            }
        }),
{
    let ghost s = v@.subrange(lo as int, hi as int);
    if lo == hi {
        return None;
    }
    let mut acc: u64 = 0;
    let mut i = lo;
    while i < hi
        invariant
            lo <= i <= hi <= v@.len(),
            s == v@.subrange(lo as int, hi as int),
            bound < 0x1_0000_0000,
            all_digits(s.take(i - lo)),
            acc == digits_value(s.take(i - lo)),
            acc <= bound,
        decreases hi - i,
    {
        let c = v[i];
        let n = c as u32;
        if n < 48 || n > 57 {
            assert(!is_digit(s[i - lo]));
            return None;
        }
        proof {
            assert(s.take(i - lo + 1).drop_last() =~= s.take(i - lo));
            assert(s.take(i - lo + 1).last() == c);
        }
        acc = acc * 10 + (n - 48) as u64;
        i = i + 1;
        assert(all_digits(s.take(i - lo))) by {
            assert forall|j: int| 0 <= j < s.take(i - lo).len() implies is_digit(
                #[trigger] s.take(i - lo)[j],
            ) by {
                if j < i - lo - 1 {
                    assert(s.take(i - lo)[j] == s.take(i - lo - 1)[j]);
                }
            }
        }
        if acc > bound {
            proof {
                if all_digits(s) {
                    lemma_digits_mono(s, i - lo);
                }
            }
            return None;
        }
    }
    assert(s.take(hi - lo) =~= s);
    Some(acc)
}

/// `v[lo..hi].parse::<u16>()`.
pub fn parse_u16(v: &Vec<char>, lo: usize, hi: usize) -> (r: Option<u16>)
    requires
        lo <= hi <= v@.len(),
    ensures
        match unsigned_value(v@.subrange(lo as int, hi as int), 0xffff) {
            Some(x) => r == Some(x as u16),
            None => r is None,
        },
{
    let ghost s = v@.subrange(lo as int, hi as int);
    let mut a = lo;
    if lo < hi && v[lo] == '+' {
        a = lo + 1;
    }
    assert(v@.subrange(a as int, hi as int) =~= (if s.len() > 0 && s[0] == '+' {
        s.drop_first()
    } else {
        s
    }));
    match digits_span(v, a, hi, 0xffff) {
        Some(x) => Some(x as u16),
        None => None,
    }
}

/// A signed parse with range `-(neg_bound)..=pos_bound`.
fn parse_signed_span(v: &Vec<char>, lo: usize, hi: usize, neg_bound: u64, pos_bound: u64) -> (r: Option<
    i64,
>)
    requires
        lo <= hi <= v@.len(),
        neg_bound < 0x1_0000_0000,
        pos_bound < 0x1_0000_0000,
    ensures
        match signed_value(v@.subrange(lo as int, hi as int), -(neg_bound as int), pos_bound as int) {
            Some(x) => r == Some(x as i64),
            None => r is None,
        },
{
    let ghost s = v@.subrange(lo as int, hi as int);
    if lo < hi && v[lo] == '-' {
        assert(v@.subrange(lo + 1, hi as int) =~= s.drop_first());
        match digits_span(v, lo + 1, hi, neg_bound) {
            Some(x) => Some(-(x as i64)),
            None => None,
        }
    } else {
        let mut a = lo;
        if lo < hi && v[lo] == '+' {
            a = lo + 1;
        }
        assert(v@.subrange(a as int, hi as int) =~= (if s.len() > 0 && s[0] == '+' {
            s.drop_first()
        } else {
            s
        }));
        match digits_span(v, a, hi, pos_bound) {
            Some(x) => Some(x as i64),
            None => None,
        }
    }
}

/// `v[lo..hi].parse::<i16>()`.
pub fn parse_i16(v: &Vec<char>, lo: usize, hi: usize) -> (r: Option<i16>)
    requires
        lo <= hi <= v@.len(),
    ensures
        match signed_value(v@.subrange(lo as int, hi as int), -0x8000, 0x7fff) {
            Some(x) => r == Some(x as i16),
            None => r is None,
        },
{
    match parse_signed_span(v, lo, hi, 0x8000, 0x7fff) {
        Some(x) => Some(x as i16),
        None => None,
    }
}

/// `v[lo..hi].parse::<i32>()`.
pub fn parse_i32(v: &Vec<char>, lo: usize, hi: usize) -> (r: Option<i32>)
    requires
        lo <= hi <= v@.len(),
    ensures
        match signed_value(v@.subrange(lo as int, hi as int), -0x8000_0000, 0x7fff_ffff) {
            Some(x) => r == Some(x as i32),
            None => r is None,
        },
{
    match parse_signed_span(v, lo, hi, 0x8000_0000, 0x7fff_ffff) {
        Some(x) => Some(x as i32),
        None => None,
    }
}

/// The ASCII digit for `d < 16`, upper case past 9.
pub open spec fn digit_char(d: nat) -> char {
    if d < 10 {
        (48 + d) as char
    } else {
        (55 + d) as char
    }
}

/// The decimal digits of `n`, as `{}` writes them.
pub open spec fn decimal(n: nat) -> Seq<char>
    decreases n,
{
    if n < 10 {
        seq![digit_char(n)]
    } else {
        decimal(n / 10).push(digit_char(n % 10))
    }
}

fn digit_of(d: u64) -> (c: char)
    requires
        d < 16,
    ensures
        c == digit_char(d as nat),
{
    if d < 10 {
        ((48 + d) as u8) as char
    } else {
        ((55 + d) as u8) as char
    }
}

/// Appends the decimal digits of `n`.
pub fn push_decimal(s: &mut String, n: u64)
    ensures
        final(s)@ == old(s)@ + decimal(n as nat),
    decreases n,
{
    if n >= 10 {
        push_decimal(s, n / 10);
    }
    push_char(s, digit_of(n % 10));
    assert(old(s)@ + decimal(n as nat) =~= (if n >= 10 {
        old(s)@ + decimal((n / 10) as nat)
    } else {
        old(s)@
    }).push(digit_char((n % 10) as nat)));
}

/// `{:0w$X}` for a value below `16^w`: exactly `w` upper-case hex digits.
pub open spec fn hex_digits(n: nat, w: nat) -> Seq<char>
    decreases w,
{
    if w == 0 {
        Seq::<char>::empty()
    } else {
        hex_digits(n / 16, (w - 1) as nat).push(digit_char(n % 16))
    }
}

/// Appends `w` upper-case hex digits of `n` (the low `4 * w` bits).
pub fn push_hex(s: &mut String, n: u64, w: u64)
    ensures
        final(s)@ == old(s)@ + hex_digits(n as nat, w as nat),
    decreases w,
{
    if w > 0 {
        push_hex(s, n / 16, w - 1);
        push_char(s, digit_of(n % 16));
        assert(old(s)@ + hex_digits(n as nat, w as nat) =~= (old(s)@ + hex_digits(
            (n / 16) as nat,
            (w - 1) as nat,
        )).push(digit_char((n % 16) as nat)));
    }
}

/// `bool`'s `Display`: `true` or `false`.
pub open spec fn bool_text(b: bool) -> Seq<char> {
    if b {
        seq!['t', 'r', 'u', 'e']
    } else {
        seq!['f', 'a', 'l', 's', 'e']
    }
}

/// Appends `true` or `false`.
pub fn push_bool(s: &mut String, b: bool)
    ensures
        final(s)@ == old(s)@ + bool_text(b),
{
    if b {
        push_char(s, 't');
        push_char(s, 'r');
        push_char(s, 'u');
        push_char(s, 'e');
        assert(old(s)@ + bool_text(b) =~= old(s)@.push('t').push('r').push('u').push('e'));
    } else {
        push_char(s, 'f');
        push_char(s, 'a');
        push_char(s, 'l');
        push_char(s, 's');
        push_char(s, 'e');
        assert(old(s)@ + bool_text(b) =~= old(s)@.push('f').push('a').push('l').push('s').push('e'));
    }
}

} // verus!
