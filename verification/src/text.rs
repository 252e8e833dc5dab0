//! Character-sequence toolkit: the string operations that the sway
//! configuration parsers and generators are built from, each with a
//! specification over `Seq<char>`.
use vstd::prelude::*;

verus! {

// ── Specifications ──────────────────────────────────────────

/// Unicode `White_Space`, the property behind `char::is_whitespace`.
pub open spec fn is_ws(c: char) -> bool {
    ||| ('\u{9}' <= c && c <= '\u{d}')
    ||| c == ' '
    ||| c == '\u{85}'
    ||| c == '\u{a0}'
    ||| c == '\u{1680}'
    ||| ('\u{2000}' <= c && c <= '\u{200a}')
    ||| c == '\u{2028}'
    ||| c == '\u{2029}'
    ||| c == '\u{202f}'
    ||| c == '\u{205f}'
    ||| c == '\u{3000}'
}

/// `s` with its leading whitespace removed.
pub open spec fn trim_start(s: Seq<char>) -> Seq<char>
    decreases s.len(),
{
    if s.len() > 0 && is_ws(s[0]) {
        trim_start(s.drop_first())
    } else {
        s
    }
}

/// `s` with its trailing whitespace removed.
pub open spec fn trim_end(s: Seq<char>) -> Seq<char>
    decreases s.len(),
{
    if s.len() > 0 && is_ws(s.last()) {
        trim_end(s.drop_last())
    } else {
        s
    }
}

/// `s` with whitespace removed at both ends.
pub open spec fn trim(s: Seq<char>) -> Seq<char> {
    trim_end(trim_start(s))
}

/// `s` with every trailing `c` removed.
pub open spec fn trim_end_char(s: Seq<char>, c: char) -> Seq<char>
    decreases s.len(),
{
    if s.len() > 0 && s.last() == c {
        trim_end_char(s.drop_last(), c)
    } else {
        s
    }
}

pub open spec fn starts_with(s: Seq<char>, p: Seq<char>) -> bool {
    p.len() <= s.len() && s.take(p.len() as int) == p
}

pub open spec fn ends_with(s: Seq<char>, p: Seq<char>) -> bool {
    p.len() <= s.len() && s.skip(s.len() - p.len()) == p
}

/// `p` occurs in `s` at position `i`.
pub open spec fn occurs_at(s: Seq<char>, p: Seq<char>, i: int) -> bool {
    0 <= i && i + p.len() <= s.len() && s.subrange(i, i + p.len()) == p
}

pub open spec fn contains(s: Seq<char>, p: Seq<char>) -> bool {
    exists|i: int| occurs_at(s, p, i)
}

/// The first position of `c` in `s`, if any.
pub open spec fn find_char(s: Seq<char>, c: char) -> Option<int>
    decreases s.len(),
{
    if s.len() == 0 {
        None
    } else if s[0] == c {
        Some(0)
    } else {
        match find_char(s.drop_first(), c) {
            Some(i) => Some(i + 1),
            None => None,
        }
    }
}

/// A line as `str::lines` hands it out: one trailing `'\r'` removed.
pub open spec fn strip_cr(s: Seq<char>) -> Seq<char> {
    if s.len() > 0 && s.last() == '\r' {
        s.drop_last()
    } else {
        s
    }
}

/// The lines of `s`, as `str::lines` yields them: split at `'\n'`, a
/// final line ending is optional, and a `'\r'` before a `'\n'` is dropped.
pub open spec fn lines(s: Seq<char>) -> Seq<Seq<char>>
    decreases s.len(),
{
    if s.len() == 0 {
        seq![]
    } else {
        match find_char(s, '\n') {
            Some(k) => {
                proof {
                    lemma_find_char_bound(s, '\n');
                }
                seq![strip_cr(s.take(k))] + lines(s.skip(k + 1))
            },
            None => seq![s],
        }
    }
}

pub proof fn lemma_find_char_bound(s: Seq<char>, c: char)
    ensures
        find_char(s, c) matches Some(k) ==> 0 <= k < s.len() && s[k] == c && forall|i: int|
            0 <= i < k ==> s[i] != c,
    decreases s.len(),
{
    if s.len() > 0 && s[0] != c {
        lemma_find_char_bound(s.drop_first(), c);
        if let Some(k) = find_char(s.drop_first(), c) {
            assert forall|i: int| 0 <= i < k + 1 implies s[i] != c by {
                if i > 0 {
                    assert(s[i] == s.drop_first()[i - 1]);
                }
            }
        }
    }
}

/// The lines joined with `sep` between them, as `[T]::join` does.
pub open spec fn join(parts: Seq<Seq<char>>, sep: Seq<char>) -> Seq<char>
    decreases parts.len(),
{
    if parts.len() == 0 {
        seq![]
    } else if parts.len() == 1 {
        parts[0]
    } else {
        join(parts.drop_last(), sep) + sep + parts.last()
    }
}

/// The trailing run of non-whitespace characters of `s`.
pub open spec fn word_suffix(s: Seq<char>) -> Seq<char>
    decreases s.len(),
{
    if s.len() == 0 || is_ws(s.last()) {
        seq![]
    } else {
        word_suffix(s.drop_last()).push(s.last())
    }
}

/// The last item of `s.split_whitespace()`.
pub open spec fn last_word(s: Seq<char>) -> Option<Seq<char>> {
    let t = trim_end(s);
    if t.len() == 0 {
        None
    } else {
        Some(word_suffix(t))
    }
}

// ── Decimal numbers ─────────────────────────────────────────

pub open spec fn digit_char(d: nat) -> char
    recommends
        d < 10,
{
    ((d + 48) as u8) as char
}

pub open spec fn is_digit(c: char) -> bool {
    '0' <= c && c <= '9'
}

/// The decimal digits of `n`, without leading zeros.
pub open spec fn nat_text(n: nat) -> Seq<char>
    decreases n,
{
    if n < 10 {
        seq![digit_char(n)]
    } else {
        nat_text(n / 10).push(digit_char(n % 10))
    }
}

/// An integer in decimal, as `Display` writes it.
pub open spec fn int_text(i: int) -> Seq<char> {
    if i < 0 {
        seq!['-'] + nat_text((-i) as nat)
    } else {
        nat_text(i as nat)
    }
}

/// The value of a run of decimal digits.
pub open spec fn digits_value(d: Seq<char>) -> nat
    decreases d.len(),
{
    if d.len() == 0 {
        0
    } else {
        digits_value(d.drop_last()) * 10 + ((d.last() as nat) - 48) as nat
    }
}

pub open spec fn all_digits(d: Seq<char>) -> bool {
    forall|i: int| 0 <= i < d.len() ==> is_digit(#[trigger] d[i])
}

/// The unsigned value that `from_str` reads: an optional `'+'`, then at
/// least one decimal digit, nothing else (the range is checked apart).
pub open spec fn unsigned_value(s: Seq<char>) -> Option<nat> {
    let d = if s.len() > 0 && s[0] == '+' { s.drop_first() } else { s };
    if d.len() > 0 && all_digits(d) {
        Some(digits_value(d))
    } else {
        None
    }
}

/// The signed value that `from_str` reads: an optional `'+'` or `'-'`,
/// then at least one decimal digit (the range is checked apart).
pub open spec fn signed_value(s: Seq<char>) -> Option<int> {
    if s.len() > 0 && s[0] == '-' {
        let d = s.drop_first();
        if d.len() > 0 && all_digits(d) {
            Some(-(digits_value(d) as int))
        } else {
            None
        }
    } else {
        match unsigned_value(s) {
            Some(v) => Some(v as int),
            None => None,
        }
    }
}

/// What `s.parse::<u64>()` gives, `None` for any error.
pub open spec fn parse_u64_spec(s: Seq<char>) -> Option<u64> {
    match unsigned_value(s) {
        Some(v) => if v <= u64::MAX { Some(v as u64) } else { None },
        None => None,
    }
}

/// What `s.parse::<usize>()` gives, `None` for any error.
pub open spec fn parse_usize_spec(s: Seq<char>) -> Option<usize> {
    match unsigned_value(s) {
        Some(v) => if v <= usize::MAX { Some(v as usize) } else { None },
        None => None,
    }
}

/// What `s.parse::<i64>()` gives, `None` for any error.
pub open spec fn parse_i64_spec(s: Seq<char>) -> Option<i64> {
    match signed_value(s) {
        Some(v) => if i64::MIN <= v <= i64::MAX { Some(v as i64) } else { None },
        None => None,
    }
}

/// What `s.parse::<i32>()` gives, `None` for any error.
pub open spec fn parse_i32_spec(s: Seq<char>) -> Option<i32> {
    match signed_value(s) {
        Some(v) => if i32::MIN <= v <= i32::MAX { Some(v as i32) } else { None },
        None => None,
    }
}

/// What `s.parse::<u32>()` gives, `None` for any error.
pub open spec fn parse_u32_spec(s: Seq<char>) -> Option<u32> {
    match unsigned_value(s) {
        Some(v) => if v <= u32::MAX { Some(v as u32) } else { None },
        None => None,
    }
}

// ── Basic executable helpers ────────────────────────────────

/// Appends one character to a string with `String::push`; the contract
/// claims that the string's characters afterwards are the old ones with
/// `c` added at the end.
#[verifier::external_body]
pub(crate) fn push_char(s: &mut String, c: char)
    ensures
        final(s)@ == old(s)@.push(c),
{
    s.push(c);
}

/// The characters of a string slice, in order.
pub fn chars_of(s: &str) -> (v: Vec<char>)
    ensures
        v@ == s@,
{
    let mut v: Vec<char> = Vec::new();
    for c in it: s.chars()
        invariant
            v@ == it.seq().take(it.index() as int),
    {
        v.push(c);
    }
    v
}

/// A string holding the given characters.
pub fn string_of(v: &Vec<char>) -> (s: String)
    ensures
        s@ == v@,
{
    let mut s = String::new();
    let mut i: usize = 0;
    while i < v.len()
        invariant
            i <= v.len(),
            s@ == v@.take(i as int),
        decreases v.len() - i,
    {
        push_char(&mut s, v[i]);
        i += 1;
        assert(v@.take(i as int) == v@.take(i - 1).push(v@[i - 1]));
    }
    assert(v@.take(v.len() as int) == v@);
    s
}

/// Appends the characters of `src` to `dst`.
pub fn extend_chars(dst: &mut Vec<char>, src: &Vec<char>)
    ensures
        final(dst)@ == old(dst)@ + src@,
{
    let ghost start = dst@;
    let mut i: usize = 0;
    while i < src.len()
        invariant
            i <= src.len(),
            dst@ == start + src@.take(i as int),
        decreases src.len() - i,
    {
        dst.push(src[i]);
        i += 1;
        assert(src@.take(i as int) == src@.take(i - 1).push(src@[i - 1]));
    }
    assert(src@.take(src.len() as int) == src@);
}

/// Appends the characters of a string slice to `dst`.
pub fn extend_str(dst: &mut Vec<char>, src: &str)
    ensures
        final(dst)@ == old(dst)@ + src@,
{
    let v = chars_of(src);
    extend_chars(dst, &v);
}

/// A copy of `s[a..b]`.
pub fn slice_chars(s: &Vec<char>, a: usize, b: usize) -> (r: Vec<char>)
    requires
        a <= b <= s.len(),
    ensures
        r@ == s@.subrange(a as int, b as int),
{
    let mut r: Vec<char> = Vec::new();
    let mut i: usize = a;
    while i < b
        invariant
            a <= i <= b <= s.len(),
            r@ == s@.subrange(a as int, i as int),
        decreases b - i,
    {
        r.push(s[i]);
        i += 1;
        assert(s@.subrange(a as int, i as int) == s@.subrange(a as int, i - 1).push(s@[i - 1]));
    }
    r
}

/// Whether two character sequences are equal.
pub fn chars_eq(a: &Vec<char>, b: &Vec<char>) -> (r: bool)
    ensures
        r == (a@ == b@),
{
    if a.len() != b.len() {
        return false;
    }
    let mut i: usize = 0;
    while i < a.len()
        invariant
            i <= a.len() == b.len(),
            a@.take(i as int) == b@.take(i as int),
        decreases a.len() - i,
    {
        if a[i] != b[i] {
            assert(a@[i as int] != b@[i as int]);
            return false;
        }
        i += 1;
        assert(a@.take(i as int) == a@.take(i - 1).push(a@[i - 1]));
        assert(b@.take(i as int) == b@.take(i - 1).push(b@[i - 1]));
    }
    assert(a@.take(a.len() as int) == a@);
    assert(b@.take(b.len() as int) == b@);
    true
}

/// Whether `p` occurs in `s` at position `pos`.
pub fn occurs_at_exec(s: &Vec<char>, p: &Vec<char>, pos: usize) -> (r: bool)
    ensures
        r == occurs_at(s@, p@, pos as int),
{
    if pos > s.len() || p.len() > s.len() - pos {
        return false;
    }
    let mut i: usize = 0;
    while i < p.len()
        invariant
            pos + p.len() <= s.len(),
            i <= p.len(),
            s@.subrange(pos as int, pos + i) == p@.take(i as int),
        decreases p.len() - i,
    {
        if s[pos + i] != p[i] {
            assert(s@.subrange(pos as int, pos + p.len())[i as int] != p@[i as int]);
            return false;
        }
        i += 1;
        assert(s@.subrange(pos as int, pos + i) == s@.subrange(pos as int, pos + i - 1).push(
            s@[pos + i - 1],
        ));
        assert(p@.take(i as int) == p@.take(i - 1).push(p@[i - 1]));
    }
    assert(p@.take(p.len() as int) == p@);
    true
}

pub fn starts_with_exec(s: &Vec<char>, p: &Vec<char>) -> (r: bool)
    ensures
        r == starts_with(s@, p@),
{
    let r = occurs_at_exec(s, p, 0);
    proof {
        if p.len() <= s.len() {
            assert(s@.subrange(0, p.len() as int) == s@.take(p.len() as int));
        }
    }
    r
}

pub fn ends_with_exec(s: &Vec<char>, p: &Vec<char>) -> (r: bool)
    ensures
        r == ends_with(s@, p@),
{
    if p.len() > s.len() {
        return false;
    }
    let r = occurs_at_exec(s, p, s.len() - p.len());
    proof {
        assert(s@.subrange(s.len() - p.len(), s.len() as int) == s@.skip(s.len() - p.len()));
    }
    r
}

/// Whether `p` occurs anywhere in `s`.
pub fn contains_exec(s: &Vec<char>, p: &Vec<char>) -> (r: bool)
    ensures
        r == contains(s@, p@),
{
    if p.len() > s.len() {
        assert(forall|i: int| !occurs_at(s@, p@, i));
        return false;
    }
    let mut i: usize = 0;
    let last = s.len() - p.len();
    while i < last
        invariant
            p.len() <= s.len(),
            last == s.len() - p.len(),
            i <= last,
            forall|j: int| 0 <= j < i ==> !occurs_at(s@, p@, j),
        decreases last - i,
    {
        if occurs_at_exec(s, p, i) {
            return true;
        }
        i += 1;
    }
    if occurs_at_exec(s, p, last) {
        return true;
    }
    assert forall|j: int| !occurs_at(s@, p@, j) by {
        if 0 <= j && j + p.len() <= s.len() {
            assert(j <= last);
        }
    }
    false
}

/// Whether the literal `p` occurs in `s`.
pub fn contains_str(s: &Vec<char>, p: &str) -> (r: bool)
    ensures
        r == contains(s@, p@),
{
    let pv = chars_of(p);
    contains_exec(s, &pv)
}

pub fn starts_with_str(s: &Vec<char>, p: &str) -> (r: bool)
    ensures
        r == starts_with(s@, p@),
{
    let pv = chars_of(p);
    starts_with_exec(s, &pv)
}

pub fn ends_with_str(s: &Vec<char>, p: &str) -> (r: bool)
    ensures
        r == ends_with(s@, p@),
{
    let pv = chars_of(p);
    ends_with_exec(s, &pv)
}

pub fn eq_str(s: &Vec<char>, p: &str) -> (r: bool)
    ensures
        r == (s@ == p@),
{
    let pv = chars_of(p);
    chars_eq(s, &pv)
}

/// `char::is_whitespace`.
pub fn is_ws_exec(c: char) -> (r: bool)
    ensures
        r == is_ws(c),
{
    ('\u{9}' <= c && c <= '\u{d}') || c == ' ' || c == '\u{85}' || c == '\u{a0}' || c
        == '\u{1680}' || ('\u{2000}' <= c && c <= '\u{200a}') || c == '\u{2028}' || c
        == '\u{2029}' || c == '\u{202f}' || c == '\u{205f}' || c == '\u{3000}'
}

// ── Trimming ────────────────────────────────────────────────

proof fn lemma_trim_start_step(s: Seq<char>, i: int)
    requires
        0 <= i < s.len(),
        is_ws(s[i]),
    ensures
        trim_start(s.skip(i)) == trim_start(s.skip(i + 1)),
{
    assert(s.skip(i).drop_first() == s.skip(i + 1));
}

proof fn lemma_trim_end_step(s: Seq<char>, j: int)
    requires
        0 < j <= s.len(),
        is_ws(s[j - 1]),
    ensures
        trim_end(s.take(j)) == trim_end(s.take(j - 1)),
{
    assert(s.take(j).drop_last() == s.take(j - 1));
}

/// Bounds `[a, b)` of `trim(s[lo..hi])` inside `s`.
pub fn trim_bounds(s: &Vec<char>, lo: usize, hi: usize) -> (r: (usize, usize))
    requires
        lo <= hi <= s.len(),
    ensures
        lo <= r.0 <= r.1 <= hi,
        s@.subrange(r.0 as int, r.1 as int) == trim(s@.subrange(lo as int, hi as int)),
{
    let ghost t = s@.subrange(lo as int, hi as int);
    assert(t.skip(0) == t);
    let mut a = lo;
    while a < hi && is_ws_exec(s[a])
        invariant
            lo <= a <= hi <= s.len(),
            t == s@.subrange(lo as int, hi as int),
            trim_start(t) == trim_start(t.skip(a - lo)),
        decreases hi - a,
    {
        proof {
            lemma_trim_start_step(t, a - lo);
        }
        a += 1;
    }
    let ghost u = t.skip(a - lo);
    assert(u == s@.subrange(a as int, hi as int));
    assert(trim_start(u) == u);
    assert(u.take(hi - a) == u);
    let mut b = hi;
    while b > a && is_ws_exec(s[b - 1])
        invariant
            lo <= a <= b <= hi <= s.len(),
            u == s@.subrange(a as int, hi as int),
            trim_end(u) == trim_end(u.take(b - a)),
        decreases b - a,
    {
        proof {
            lemma_trim_end_step(u, b - a);
        }
        b -= 1;
    }
    assert(u.take(b - a) == s@.subrange(a as int, b as int));
    (a, b)
}

/// `trim(s)` as a new sequence.
pub fn trim_vec(s: &Vec<char>) -> (r: Vec<char>)
    ensures
        r@ == trim(s@),
{
    let (a, b) = trim_bounds(s, 0, s.len());
    assert(s@.subrange(0, s.len() as int) == s@);
    slice_chars(s, a, b)
}

/// `trim_end(s)` as a new sequence.
pub fn trim_end_vec(s: &Vec<char>) -> (r: Vec<char>)
    ensures
        r@ == trim_end(s@),
{
    let mut b = s.len();
    assert(s@.take(s.len() as int) == s@);
    while b > 0 && is_ws_exec(s[b - 1])
        invariant
            b <= s.len(),
            trim_end(s@) == trim_end(s@.take(b as int)),
        decreases b,
    {
        proof {
            lemma_trim_end_step(s@, b as int);
        }
        b -= 1;
    }
    assert(s@.take(s.len() as int) == s@);
    let r = slice_chars(s, 0, b);
    assert(r@ == s@.take(b as int));
    r
}

/// `trim_end_char(s, c)` as a new sequence.
pub fn trim_end_char_vec(s: &Vec<char>, c: char) -> (r: Vec<char>)
    ensures
        r@ == trim_end_char(s@, c),
{
    let mut b = s.len();
    assert(s@.take(s.len() as int) == s@);
    while b > 0 && s[b - 1] == c
        invariant
            b <= s.len(),
            trim_end_char(s@, c) == trim_end_char(s@.take(b as int), c),
        decreases b,
    {
        assert(s@.take(b as int).drop_last() == s@.take(b - 1));
        b -= 1;
    }
    let r = slice_chars(s, 0, b);
    assert(r@ == s@.take(b as int));
    r
}

// ── Lines ───────────────────────────────────────────────────

proof fn lemma_find_char_none(s: Seq<char>, c: char)
    requires
        forall|i: int| 0 <= i < s.len() ==> s[i] != c,
    ensures
        find_char(s, c) is None,
    decreases s.len(),
{
    if s.len() > 0 {
        lemma_find_char_none(s.drop_first(), c);
    }
}

proof fn lemma_find_char_some(s: Seq<char>, c: char, k: int)
    requires
        0 <= k < s.len(),
        s[k] == c,
        forall|i: int| 0 <= i < k ==> s[i] != c,
    ensures
        find_char(s, c) == Some(k),
    decreases k,
{
    if k > 0 {
        lemma_find_char_some(s.drop_first(), c, k - 1);
    }
}

/// The first position at or after `from` where `c` occurs in `s`.
pub fn find_char_from(s: &Vec<char>, from: usize, c: char) -> (r: Option<usize>)
    requires
        from <= s.len(),
    ensures
        match r {
            Some(k) => from <= k < s.len() && find_char(s@.skip(from as int), c) == Some(
                k - from,
            ),
            None => find_char(s@.skip(from as int), c) is None,
        },
{
    let mut k = from;
    while k < s.len()
        invariant
            from <= k <= s.len(),
            forall|i: int| from <= i < k ==> s@[i] != c,
        decreases s.len() - k,
    {
        if s[k] == c {
            proof {
                lemma_find_char_some(s@.skip(from as int), c, k - from);
            }
            return Some(k);
        }
        k += 1;
    }
    proof {
        lemma_find_char_none(s@.skip(from as int), c);
    }
    None
}

/// Bounds of the lines of `s` (as `str::lines` yields them).
pub fn line_bounds(s: &Vec<char>) -> (r: Vec<(usize, usize)>)
    ensures
        r.len() == lines(s@).len(),
        forall|i: int|
            #![trigger r@[i]]
            0 <= i < r.len() ==> r@[i].0 <= r@[i].1 <= s.len() && s@.subrange(
                r@[i].0 as int,
                r@[i].1 as int,
            ) == lines(s@)[i],
{
    let mut r: Vec<(usize, usize)> = Vec::new();
    let mut pos: usize = 0;
    let ghost mut done: Seq<Seq<char>> = seq![];
    assert(s@.skip(0) == s@);
    assert(done + lines(s@.skip(0)) == lines(s@));
    while pos < s.len()
        invariant
            pos <= s.len(),
            lines(s@) == done + lines(s@.skip(pos as int)),
            r.len() == done.len(),
            forall|i: int|
                #![trigger r@[i]]
                0 <= i < r.len() ==> r@[i].0 <= r@[i].1 <= s.len() && s@.subrange(
                    r@[i].0 as int,
                    r@[i].1 as int,
                ) == done[i],
        decreases s.len() - pos,
    {
        let ghost rest = s@.skip(pos as int);
        let ghost old_done = done;
        match find_char_from(s, pos, '\n') {
            Some(k) => {
                let mut e = k;
                if e > pos && s[e - 1] == '\r' {
                    e = e - 1;
                }
                proof {
                    let line = rest.take(k - pos);
                    assert(line == s@.subrange(pos as int, k as int));
                    assert(strip_cr(line) == s@.subrange(pos as int, e as int));
                    assert(rest.skip(k - pos + 1) == s@.skip(k + 1));
                    assert(lines(rest) == seq![strip_cr(line)] + lines(s@.skip(k + 1)));
                    done = done.push(strip_cr(line));
                    assert(lines(s@) == done + lines(s@.skip(k + 1)));
                }
                r.push((pos, e));
                pos = k + 1;
                proof {
                    assert forall|i: int| 0 <= i < r.len() implies r@[i].0 <= r@[i].1 <= s.len()
                        && s@.subrange(r@[i].0 as int, r@[i].1 as int) == done[i] by {
                        if i < r.len() - 1 {
                            assert(done[i] == old_done[i]);
                        }
                    }
                }
            },
            None => {
                proof {
                    assert(rest == s@.subrange(pos as int, s.len() as int));
                    assert(lines(rest) == seq![rest]);
                    done = done.push(rest);
                    assert(s@.skip(s.len() as int) == Seq::<char>::empty());
                    assert(lines(s@) == done + lines(s@.skip(s.len() as int)));
                }
                r.push((pos, s.len()));
                pos = s.len();
                proof {
                    assert forall|i: int| 0 <= i < r.len() implies r@[i].0 <= r@[i].1 <= s.len()
                        && s@.subrange(r@[i].0 as int, r@[i].1 as int) == done[i] by {
                        if i < r.len() - 1 {
                            assert(done[i] == old_done[i]);
                        }
                    }
                }
            },
        }
    }
    assert(s@.skip(pos as int) == Seq::<char>::empty());
    assert(lines(s@) == done);
    r
}

/// The lines of `s` as separate sequences.
pub fn lines_of(s: &Vec<char>) -> (r: Vec<Vec<char>>)
    ensures
        r.len() == lines(s@).len(),
        forall|i: int| 0 <= i < r.len() ==> #[trigger] r@[i]@ == lines(s@)[i],
{
    let b = line_bounds(s);
    let mut r: Vec<Vec<char>> = Vec::new();
    let mut i: usize = 0;
    while i < b.len()
        invariant
            i <= b.len(),
            b.len() == lines(s@).len(),
            forall|j: int|
                #![trigger b@[j]]
                0 <= j < b.len() ==> b@[j].0 <= b@[j].1 <= s.len() && s@.subrange(
                    b@[j].0 as int,
                    b@[j].1 as int,
                ) == lines(s@)[j],
            r.len() == i,
            forall|j: int| 0 <= j < i ==> #[trigger] r@[j]@ == lines(s@)[j],
        decreases b.len() - i,
    {
        let (x, y) = b[i];
        assert(s@.subrange(x as int, y as int) == lines(s@)[i as int]);
        let l = slice_chars(s, x, y);
        r.push(l);
        i += 1;
    }
    r
}

/// `parts.join(sep)` as a string.
pub fn join_lines(parts: &Vec<Vec<char>>, sep: &str) -> (r: String)
    ensures
        r@ == join(parts@.map_values(|p: Vec<char>| p@), sep@),
{
    let ghost views = parts@.map_values(|p: Vec<char>| p@);
    let sepv = chars_of(sep);
    let mut out: Vec<char> = Vec::new();
    let mut i: usize = 0;
    while i < parts.len()
        invariant
            i <= parts.len(),
            views == parts@.map_values(|p: Vec<char>| p@),
            sepv@ == sep@,
            out@ == join(views.take(i as int), sep@),
        decreases parts.len() - i,
    {
        if i > 0 {
            extend_chars(&mut out, &sepv);
        }
        extend_chars(&mut out, &parts[i]);
        i += 1;
        assert(views.take(i as int).drop_last() == views.take(i - 1));
        assert(views.take(i as int).last() == parts@[i - 1]@);
    }
    assert(views.take(parts.len() as int) == views);
    string_of(&out)
}

/// The pieces of `s` between occurrences of `c` (`str::split(c)`).
pub open spec fn split_char(s: Seq<char>, c: char) -> Seq<Seq<char>>
    decreases s.len(),
{
    match find_char(s, c) {
        Some(k) => {
            proof {
                lemma_find_char_bound(s, c);
            }
            seq![s.take(k)] + split_char(s.skip(k + 1), c)
        },
        None => seq![s],
    }
}

/// The pieces of `s` between occurrences of `c`.
pub fn split_char_exec(s: &Vec<char>, c: char) -> (r: Vec<Vec<char>>)
    ensures
        r@.map_values(|p: Vec<char>| p@) == split_char(s@, c),
{
    let mut r: Vec<Vec<char>> = Vec::new();
    let mut pos: usize = 0;
    let ghost mut done: Seq<Seq<char>> = seq![];
    assert(s@.skip(0) == s@);
    assert(done + split_char(s@.skip(0), c) == split_char(s@, c));
    loop
        invariant
            pos <= s.len(),
            split_char(s@, c) == done + split_char(s@.skip(pos as int), c),
            r@.map_values(|p: Vec<char>| p@) == done,
        decreases s.len() - pos,
    {
        let ghost rest = s@.skip(pos as int);
        let (end, last) = match find_char_from(s, pos, c) {
            Some(k) => (k, false),
            None => (s.len(), true),
        };
        let piece = slice_chars(s, pos, end);
        let ghost before = done;
        proof {
            if last {
                assert(piece@ == rest);
            } else {
                lemma_find_char_bound(rest, c);
                assert(piece@ == rest.take(end - pos));
                assert(rest.skip(end - pos + 1) == s@.skip(end + 1));
            }
            done = done.push(piece@);
        }
        r.push(piece);
        assert(r@.map_values(|p: Vec<char>| p@) == done);
        if last {
            return r;
        }
        pos = end + 1;
    }
}

// ── Words ───────────────────────────────────────────────────

/// The last item of `s.split_whitespace()`, if any.
pub fn last_word_exec(s: &Vec<char>) -> (r: Option<Vec<char>>)
    ensures
        match r {
            Some(w) => last_word(s@) == Some(w@),
            None => last_word(s@) is None,
        },
{
    let t = trim_end_vec(s);
    if t.len() == 0 {
        return None;
    }
    let mut a = t.len();
    assert(t@.take(t.len() as int) == t@);
    while a > 0 && !is_ws_exec(t[a - 1])
        invariant
            a <= t.len(),
            word_suffix(t@) == word_suffix(t@.take(a as int)) + t@.subrange(
                a as int,
                t.len() as int,
            ),
        decreases a,
    {
        assert(t@.take(a as int).drop_last() == t@.take(a - 1));
        assert(t@.subrange(a - 1, t.len() as int) == seq![t@[a - 1]] + t@.subrange(
            a as int,
            t.len() as int,
        ));
        a -= 1;
    }
    assert(word_suffix(t@.take(a as int)) == Seq::<char>::empty());
    let w = slice_chars(&t, a, t.len());
    Some(w)
}

// ── Decimal formatting ──────────────────────────────────────

/// The decimal digits of `n`.
pub fn u64_text(n: u64) -> (r: Vec<char>)
    ensures
        r@ == nat_text(n as nat),
{
    let mut digits: Vec<char> = Vec::new();
    let mut m = n;
    // digits are produced least significant first
    let ghost mut rest: Seq<char> = seq![];
    while m >= 10
        invariant
            nat_text(n as nat) == nat_text(m as nat) + digits@.reverse(),
        decreases m,
    {
        let d = m % 10;
        proof {
            assert(nat_text(m as nat) == nat_text((m / 10) as nat).push(digit_char(d as nat)));
            assert(digits@.push(digit_char(d as nat)).reverse() == seq![digit_char(d as nat)]
                + digits@.reverse());
        }
        digits.push(((d as u8) + 48u8) as char);
        m = m / 10;
    }
    proof {
        assert(nat_text(m as nat) == seq![digit_char(m as nat)]);
    }
    digits.push(((m as u8) + 48u8) as char);
    assert(nat_text(n as nat) == digits@.reverse());
    let mut r: Vec<char> = Vec::new();
    let mut i = digits.len();
    while i > 0
        invariant
            i <= digits.len(),
            r@ == digits@.reverse().take(digits.len() - i),
        decreases i,
    {
        i -= 1;
        r.push(digits[i]);
        assert(digits@.reverse().take(digits.len() - i) == digits@.reverse().take(
            digits.len() - i - 1,
        ).push(digits@[i as int]));
    }
    assert(digits@.reverse().take(digits.len() as int) == digits@.reverse());
    r
}

/// An `i64` in decimal.
pub fn i64_text(n: i64) -> (r: Vec<char>)
    ensures
        r@ == int_text(n as int),
{
    if n < 0 {
        let m: u64 = if n == i64::MIN {
            9223372036854775808u64
        } else {
            (-n) as u64
        };
        let mut r: Vec<char> = Vec::new();
        r.push('-');
        let d = u64_text(m);
        extend_chars(&mut r, &d);
        r
    } else {
        u64_text(n as u64)
    }
}

// ── Decimal parsing ─────────────────────────────────────────

proof fn lemma_digits_value_step(d: Seq<char>, i: int)
    requires
        0 <= i < d.len(),
    ensures
        digits_value(d.take(i + 1)) == digits_value(d.take(i)) * 10 + ((d[i] as nat) - 48) as nat,
{
    assert(d.take(i + 1).drop_last() == d.take(i));
}

proof fn lemma_digits_value_mono(d: Seq<char>, i: int)
    requires
        0 <= i <= d.len(),
        all_digits(d),
    ensures
        digits_value(d.take(i)) <= digits_value(d),
    decreases d.len() - i,
{
    if i < d.len() {
        lemma_digits_value_step(d, i);
        lemma_digits_value_mono(d, i + 1);
    } else {
        assert(d.take(i) == d);
    }
}

/// The value of the digit run `s[a..]`, or `None` when it is empty, holds
/// another character, or exceeds `limit`.
fn digits_at_most(s: &Vec<char>, a: usize, limit: u64) -> (r: Option<u64>)
    requires
        a <= s.len(),
        limit >= 9,
    ensures
        match r {
            Some(v) => {
                let d = s@.skip(a as int);
                &&& d.len() > 0
                &&& all_digits(d)
                &&& v == digits_value(d)
                &&& v <= limit
            },
            None => {
                let d = s@.skip(a as int);
                !(d.len() > 0 && all_digits(d) && digits_value(d) <= limit)
            },
        },
{
    let ghost d = s@.skip(a as int);
    if a == s.len() {
        return None;
    }
    let mut acc: u64 = 0;
    let mut i = a;
    while i < s.len()
        invariant
            a <= i <= s.len(),
            d == s@.skip(a as int),
            all_digits(d.take(i - a)),
            acc == digits_value(d.take(i - a)),
            acc <= limit,
            limit >= 9,
        decreases s.len() - i,
    {
        let c = s[i];
        if !('0' <= c && c <= '9') {
            assert(!is_digit(d[i - a]));
            return None;
        }
        let dv = (c as u64) - 48;
        assert(dv <= 9);
        proof {
            lemma_digits_value_step(d, i - a);
        }
        if acc > (limit - dv) / 10 {
            proof {
                assert(acc * 10 + dv > limit) by (nonlinear_arith)
                    requires
                        acc > (limit - dv) / 10,
                        dv <= 9,
                        dv <= limit,
                ;
                assert(all_digits(d.take(i - a + 1)));
                if all_digits(d) {
                    lemma_digits_value_mono(d, i - a + 1);
                }
            }
            return None;
        }
        proof {
            assert(acc * 10 + dv <= limit) by (nonlinear_arith)
                requires
                    acc <= (limit - dv) / 10,
                    dv <= limit,
            ;
        }
        acc = acc * 10 + dv;
        i += 1;
        assert(all_digits(d.take(i - a)));
    }
    assert(d.take(i - a) == d);
    Some(acc)
}

/// `s.parse::<u64>().ok()`.
pub fn parse_u64(s: &Vec<char>) -> (r: Option<u64>)
    ensures
        r == parse_u64_spec(s@),
{
    let a: usize = if s.len() > 0 && s[0] == '+' { 1 } else { 0 };
    assert(s@.skip(a as int) == (if s@.len() > 0 && s@[0] == '+' { s@.drop_first() } else { s@ }));
    digits_at_most(s, a, u64::MAX)
}

/// `s.parse::<usize>().ok()`.
pub fn parse_usize(s: &Vec<char>) -> (r: Option<usize>)
    ensures
        r == parse_usize_spec(s@),
{
    let a: usize = if s.len() > 0 && s[0] == '+' { 1 } else { 0 };
    assert(s@.skip(a as int) == (if s@.len() > 0 && s@[0] == '+' { s@.drop_first() } else { s@ }));
    match digits_at_most(s, a, usize::MAX as u64) {
        Some(v) => Some(v as usize),
        None => None,
    }
}

/// `s.parse::<u32>().ok()`.
pub fn parse_u32(s: &Vec<char>) -> (r: Option<u32>)
    ensures
        r == parse_u32_spec(s@),
{
    let a: usize = if s.len() > 0 && s[0] == '+' { 1 } else { 0 };
    assert(s@.skip(a as int) == (if s@.len() > 0 && s@[0] == '+' { s@.drop_first() } else { s@ }));
    match digits_at_most(s, a, u32::MAX as u64) {
        Some(v) => Some(v as u32),
        None => None,
    }
}

/// `s.parse::<i64>().ok()`.
pub fn parse_i64(s: &Vec<char>) -> (r: Option<i64>)
    ensures
        r == parse_i64_spec(s@),
{
    if s.len() > 0 && s[0] == '-' {
        assert(s@.skip(1) == s@.drop_first());
        match digits_at_most(s, 1, 9223372036854775808u64) {
            Some(v) => {
                if v == 9223372036854775808u64 {
                    Some(i64::MIN)
                } else {
                    Some(-(v as i64))
                }
            },
            None => None,
        }
    } else {
        let a: usize = if s.len() > 0 && s[0] == '+' { 1 } else { 0 };
        assert(s@.skip(a as int) == (if s@.len() > 0 && s@[0] == '+' { s@.drop_first() } else { s@ }));
        match digits_at_most(s, a, i64::MAX as u64) {
            Some(v) => Some(v as i64),
            None => None,
        }
    }
}

/// `s.parse::<i32>().ok()`.
pub fn parse_i32(s: &Vec<char>) -> (r: Option<i32>)
    ensures
        r == parse_i32_spec(s@),
{
    if s.len() > 0 && s[0] == '-' {
        assert(s@.skip(1) == s@.drop_first());
        match digits_at_most(s, 1, 2147483648u64) {
            Some(v) => {
                if v == 2147483648u64 {
                    Some(i32::MIN)
                } else {
                    Some(-(v as i32))
                }
            },
            None => None,
        }
    } else {
        let a: usize = if s.len() > 0 && s[0] == '+' { 1 } else { 0 };
        assert(s@.skip(a as int) == (if s@.len() > 0 && s@[0] == '+' { s@.drop_first() } else { s@ }));
        match digits_at_most(s, a, i32::MAX as u64) {
            Some(v) => Some(v as i32),
            None => None,
        }
    }
}

// ── Facts about the specifications ─────────────────────────

proof fn lemma_digit_char(d: nat)
    requires
        d < 10,
    ensures
        is_digit(digit_char(d)),
        (digit_char(d) as nat) - 48 == d,
        !is_ws(digit_char(d)),
        digit_char(d) != '\n' && digit_char(d) != '\r' && digit_char(d) != ',' && digit_char(d)
            != '+' && digit_char(d) != '-',
{
}

/// The digits of a number are digits, and read back as the number.
pub proof fn lemma_nat_text(n: nat)
    ensures
        nat_text(n).len() > 0,
        all_digits(nat_text(n)),
        digits_value(nat_text(n)) == n,
        forall|i: int| 0 <= i < nat_text(n).len() ==> is_digit(#[trigger] nat_text(n)[i]),
    decreases n,
{
    if n < 10 {
        lemma_digit_char(n);
        assert(nat_text(n).drop_last() == Seq::<char>::empty());
        assert(digits_value(Seq::<char>::empty()) == 0);
        assert(digits_value(nat_text(n)) == ((digit_char(n) as nat) - 48) as nat);
    } else {
        lemma_nat_text(n / 10);
        lemma_digit_char(n % 10);
        let t = nat_text(n / 10);
        assert(nat_text(n).drop_last() == t);
        assert(nat_text(n).last() == digit_char(n % 10));
        assert((n / 10) * 10 + n % 10 == n) by (nonlinear_arith);
        assert(digits_value(nat_text(n)) == digits_value(t) * 10 + ((digit_char(n % 10) as nat) - 48) as nat);
        assert forall|i: int| 0 <= i < nat_text(n).len() implies is_digit(#[trigger] nat_text(n)[i]) by {
            if i < t.len() {
                assert(nat_text(n)[i] == t[i]);
            }
        }
    }
}

/// A number written in decimal reads back as itself.
pub proof fn lemma_parse_nat_text(n: nat)
    ensures
        unsigned_value(nat_text(n)) == Some(n),
        n <= u64::MAX ==> parse_u64_spec(nat_text(n)) == Some(n as u64),
        n <= usize::MAX ==> parse_usize_spec(nat_text(n)) == Some(n as usize),
{
    lemma_nat_text(n);
    assert(is_digit(nat_text(n)[0]));
}

/// An integer written in decimal reads back as itself.
pub proof fn lemma_parse_int_text(i: int)
    ensures
        signed_value(int_text(i)) == Some(i),
        i64::MIN <= i <= i64::MAX ==> parse_i64_spec(int_text(i)) == Some(i as i64),
        i32::MIN <= i <= i32::MAX ==> parse_i32_spec(int_text(i)) == Some(i as i32),
{
    if i < 0 {
        let n = (-i) as nat;
        lemma_nat_text(n);
        let s = int_text(i);
        assert(s.drop_first() == nat_text(n));
    } else {
        lemma_parse_nat_text(i as nat);
        lemma_nat_text(i as nat);
        assert(is_digit(nat_text(i as nat)[0]));
    }
}

/// Decimal text holds no whitespace, line ending, comma or sign but a
/// leading minus.
pub proof fn lemma_int_text_chars(i: int)
    ensures
        forall|k: int|
            0 <= k < int_text(i).len() ==> !is_ws(#[trigger] int_text(i)[k]) && int_text(i)[k]
                != '\n' && int_text(i)[k] != '\r' && int_text(i)[k] != ',',
        int_text(i).len() > 0,
{
    let n: nat = if i < 0 {
        (-i) as nat
    } else {
        i as nat
    };
    lemma_nat_text(n);
    assert forall|k: int| 0 <= k < int_text(i).len() implies !is_ws(#[trigger] int_text(i)[k])
        && int_text(i)[k] != '\n' && int_text(i)[k] != '\r' && int_text(i)[k] != ',' by {
        if i < 0 {
            if k > 0 {
                assert(int_text(i)[k] == nat_text(n)[k - 1]);
            }
        }
    }
}

/// Trimming keeps a first character that is no whitespace.
pub proof fn lemma_trim_keeps_first(s: Seq<char>)
    requires
        s.len() > 0,
        !is_ws(s[0]),
    ensures
        trim(s).len() > 0,
        trim(s)[0] == s[0],
    decreases s.len(),
{
    assert(trim_start(s) == s);
    lemma_trim_end_keeps_first(s);
}

pub proof fn lemma_trim_end_keeps_first(s: Seq<char>)
    requires
        s.len() > 0,
        !is_ws(s[0]),
    ensures
        trim_end(s).len() > 0,
        trim_end(s)[0] == s[0],
    decreases s.len(),
{
    if is_ws(s.last()) {
        assert(s.len() > 1);
        assert(s.drop_last()[0] == s[0]);
        lemma_trim_end_keeps_first(s.drop_last());
    }
}

/// Text without whitespace at its ends is its own trim.
pub proof fn lemma_trim_noop(s: Seq<char>)
    requires
        s.len() > 0 ==> !is_ws(s[0]) && !is_ws(s.last()),
    ensures
        trim(s) == s,
{
}

proof fn lemma_find_char_concat(p: Seq<char>, x: Seq<char>, c: char)
    requires
        find_char(p, c) is Some,
    ensures
        find_char(p + x, c) == find_char(p, c),
{
    lemma_find_char_bound(p, c);
    let k = find_char(p, c)->0;
    assert((p + x)[k] == c);
    assert forall|i: int| 0 <= i < k implies (p + x)[i] != c by {
        assert((p + x)[i] == p[i]);
    }
    lemma_find_char_some(p + x, c, k);
}

/// The lines of text that ends a line, followed by more text, are the
/// lines of each.
pub proof fn lemma_lines_append(p: Seq<char>, x: Seq<char>)
    requires
        p.len() > 0,
        p.last() == '\n',
    ensures
        lines(p + x) == lines(p) + lines(x),
    decreases p.len(),
{
    assert(p[p.len() - 1] == '\n');
    if find_char(p, '\n') is None {
        lemma_find_char_bound(p, '\n');
        lemma_find_char_none_has(p, '\n', p.len() - 1);
    }
    lemma_find_char_bound(p, '\n');
    let k = find_char(p, '\n')->0;
    lemma_find_char_concat(p, x, '\n');
    assert((p + x).take(k) == p.take(k));
    assert((p + x).skip(k + 1) == p.skip(k + 1) + x);
    if k + 1 == p.len() {
        assert(p.skip(k + 1) == Seq::<char>::empty());
        assert(p.skip(k + 1) + x == x);
        assert(lines(p.skip(k + 1)) == Seq::<Seq<char>>::empty());
    } else {
        let q = p.skip(k + 1);
        assert(q.last() == '\n');
        lemma_lines_append(q, x);
    }
}

proof fn lemma_find_char_none_has(s: Seq<char>, c: char, k: int)
    requires
        0 <= k < s.len(),
        s[k] == c,
    ensures
        find_char(s, c) is Some,
    decreases s.len(),
{
    if s[0] != c {
        lemma_find_char_none_has(s.drop_first(), c, k - 1);
    }
}

/// One line without a line ending, then a newline: that line alone.
pub proof fn lemma_lines_single(l: Seq<char>)
    requires
        forall|i: int| 0 <= i < l.len() ==> l[i] != '\n',
        l.len() > 0 ==> l.last() != '\r',
    ensures
        lines(l + seq!['\n']) == seq![l],
{
    let s = l + seq!['\n'];
    assert(s[l.len() as int] == '\n');
    assert forall|i: int| 0 <= i < l.len() implies s[i] != '\n' by {
        assert(s[i] == l[i]);
    }
    lemma_find_char_some(s, '\n', l.len() as int);
    assert(s.take(l.len() as int) == l);
    assert(s.skip(l.len() as int + 1) == Seq::<char>::empty());
    assert(lines(Seq::<char>::empty()) == Seq::<Seq<char>>::empty());
}

// ── Lowercasing ─────────────────────────────────────────────

/// What `str::to_lowercase` returns for a string: each character mapped
/// by the Unicode `Lowercase` mapping (tables, and one rule for final
/// sigma), too long to restate here.
pub uninterp spec fn lowercase(s: Seq<char>) -> Seq<char>;

/// Whether every character is ASCII.
pub open spec fn all_ascii(s: Seq<char>) -> bool {
    forall|i: int| 0 <= i < s.len() ==> (#[trigger] s[i] as u32) < 0x80
}

/// A character with `A`-`Z` mapped to `a`-`z`.
pub open spec fn ascii_lower_char(c: char) -> char {
    if 'A' <= c && c <= 'Z' {
        ((c as u32) + 32) as char
    } else {
        c
    }
}

/// `s` with `A`-`Z` mapped to `a`-`z`.
pub open spec fn ascii_lower(s: Seq<char>) -> Seq<char> {
    s.map_values(|c: char| ascii_lower_char(c))
}

/// `str::to_lowercase`. The contract names the result `lowercase(s@)`:
/// it depends on the characters of `s` alone. Of ASCII text it states
/// what the Unicode mapping gives there: `A`-`Z` become `a`-`z`, every
/// other ASCII character stays. What it gives elsewhere is left unsaid.
#[verifier::external_body]
pub(crate) fn to_lowercase(s: &str) -> (r: String)
    ensures
        r@ == lowercase(s@),
        all_ascii(s@) ==> r@ == ascii_lower(s@),
{
    s.to_lowercase()
}

} // verus!
