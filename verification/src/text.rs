use vstd::prelude::*;

verus! {

broadcast use vstd::string::group_string_axioms;

// ---------------------------------------------------------------------------
// Characters
// ---------------------------------------------------------------------------

/// Membership in Unicode's White_Space property, the set of characters that
/// `char::is_whitespace` accepts and that the `\s` class of a regular
/// expression stands for.
pub open spec fn is_white_space(c: char) -> bool {
    let n = c as u32;
    ||| 0x09 <= n <= 0x0d
    ||| n == 0x20
    ||| n == 0x85
    ||| n == 0xa0
    ||| n == 0x1680
    ||| 0x2000 <= n <= 0x200a
    ||| n == 0x2028
    ||| n == 0x2029
    ||| n == 0x202f
    ||| n == 0x205f
    ||| n == 0x3000
}

/// Whether `c` is a Unicode white-space character.
pub fn white_space(c: char) -> (b: bool)
    ensures
        b == is_white_space(c),
{
    let n = c as u32;
    (0x09 <= n && n <= 0x0d) || n == 0x20 || n == 0x85 || n == 0xa0 || n == 0x1680 || (0x2000
        <= n && n <= 0x200a) || n == 0x2028 || n == 0x2029 || n == 0x202f || n == 0x205f || n
        == 0x3000
}

// ---------------------------------------------------------------------------
// Conversions between strings and character vectors
// ---------------------------------------------------------------------------

/// Appends `c` to `s` by `String::push`, which adds the character at the end
/// of the string and changes nothing before it.
#[verifier::external_body]
pub(crate) fn push_char(s: &mut String, c: char)
    ensures
        final(s)@ == old(s)@.push(c),
{
    s.push(c);
}

/// Removes the last character of `s` by `String::pop`, which returns it, or
/// returns `None` and leaves the string as it is when the string is empty.
#[verifier::external_body]
pub(crate) fn pop_char(s: &mut String) -> (r: Option<char>)
    ensures
        old(s)@.len() == 0 ==> r is None && final(s)@ == old(s)@,
        old(s)@.len() > 0 ==> r == Some(old(s)@.last()) && final(s)@ == old(s)@.drop_last(),
{
    s.pop()
}

/// The characters of `s`, in order.
pub fn chars_of(s: &str) -> (v: Vec<char>)
    ensures
        v@ == s@,
{
    let mut v: Vec<char> = Vec::new();
    for c in it: s.chars()
        invariant
            it.seq() == s@,
            v@ == s@.take(it.index()),
    {
        v.push(c);
        assert(s@.take(it.index() + 1) == s@.take(it.index()).push(c));
    }
    assert(s@.take(s@.len() as int) == s@);
    v
}

/// A string made of the characters `v@[lo..hi]`.
pub fn string_of(v: &[char], lo: usize, hi: usize) -> (s: String)
    requires
        lo <= hi <= v@.len(),
    ensures
        s@ == v@.subrange(lo as int, hi as int),
{
    let mut s = String::new();
    let mut i = lo;
    while i < hi
        invariant
            lo <= i <= hi <= v@.len(),
            s@ == v@.subrange(lo as int, i as int),
        decreases hi - i,
    {
        push_char(&mut s, v[i]);
        assert(v@.subrange(lo as int, i + 1) == v@.subrange(lo as int, i as int).push(v@[i as int]));
        i = i + 1;
    }
    s
}

/// A string made of all the characters of `v`.
pub fn string_from(v: &[char]) -> (s: String)
    ensures
        s@ == v@,
{
    let s = string_of(v, 0, v.len());
    assert(v@.subrange(0, v@.len() as int) == v@);
    s
}

/// A vector holding the characters `v@[lo..hi]`.
pub fn slice_chars(v: &[char], lo: usize, hi: usize) -> (r: Vec<char>)
    requires
        lo <= hi <= v@.len(),
    ensures
        r@ == v@.subrange(lo as int, hi as int),
{
    let mut r: Vec<char> = Vec::new();
    let mut i = lo;
    while i < hi
        invariant
            lo <= i <= hi <= v@.len(),
            r@ == v@.subrange(lo as int, i as int),
        decreases hi - i,
    {
        r.push(v[i]);
        assert(v@.subrange(lo as int, i + 1) == v@.subrange(lo as int, i as int).push(v@[i as int]));
        i = i + 1;
    }
    r
}

/// Appends the characters of `extra` to `v`.
pub fn push_all(v: &mut Vec<char>, extra: &[char])
    ensures
        final(v)@ == old(v)@ + extra@,
{
    let mut i: usize = 0;
    while i < extra.len()
        invariant
            0 <= i <= extra@.len(),
            v@ == old(v)@ + extra@.subrange(0, i as int),
        decreases extra@.len() - i,
    {
        v.push(extra[i]);
        assert(extra@.subrange(0, i + 1) == extra@.subrange(0, i as int).push(extra@[i as int]));
        i = i + 1;
    }
    assert(extra@.subrange(0, extra@.len() as int) == extra@);
}

/// Whether two character sequences are equal.
pub fn chars_eq(a: &[char], b: &[char]) -> (r: bool)
    ensures
        r == (a@ == b@),
{
    if a.len() != b.len() {
        return false;
    }
    let mut i: usize = 0;
    while i < a.len()
        invariant
            a@.len() == b@.len(),
            0 <= i <= a@.len(),
            forall|k: int| 0 <= k < i ==> a@[k] == b@[k],
        decreases a@.len() - i,
    {
        if a[i] != b[i] {
            return false;
        }
        i = i + 1;
    }
    assert(a@ =~= b@);
    true
}

// ---------------------------------------------------------------------------
// Trimming
// ---------------------------------------------------------------------------

/// `s` without its leading white space.
pub open spec fn trim_start(s: Seq<char>) -> Seq<char>
    decreases s.len(),
{
    if s.len() > 0 && is_white_space(s[0]) {
        trim_start(s.drop_first())
    } else {
        s
    }
}

/// `s` without its trailing white space.
pub open spec fn trim_end(s: Seq<char>) -> Seq<char>
    decreases s.len(),
{
    if s.len() > 0 && is_white_space(s.last()) {
        trim_end(s.drop_last())
    } else {
        s
    }
}

/// `s` without leading and trailing white space, as `str::trim` gives it.
pub open spec fn trim(s: Seq<char>) -> Seq<char> {
    trim_end(trim_start(s))
}

/// The bounds of `v@[lo..hi]` once white space is cut from both ends.
pub fn trimmed_bounds(v: &[char], lo: usize, hi: usize) -> (r: (usize, usize))
    requires
        lo <= hi <= v@.len(),
    ensures
        lo <= r.0 <= r.1 <= hi,
        v@.subrange(r.0 as int, r.1 as int) == trim(v@.subrange(lo as int, hi as int)),
{
    let mut a = lo;
    while a < hi && white_space(v[a])
        invariant
            lo <= a <= hi <= v@.len(),
            trim_start(v@.subrange(lo as int, hi as int)) == trim_start(
                v@.subrange(a as int, hi as int),
            ),
        decreases hi - a,
    {
        assert(v@.subrange(a as int, hi as int).drop_first() == v@.subrange(a + 1, hi as int));
        a = a + 1;
    }
    assert(trim_start(v@.subrange(lo as int, hi as int)) == v@.subrange(a as int, hi as int));
    let mut b = hi;
    while b > a && white_space(v[b - 1])
        invariant
            lo <= a <= b <= hi <= v@.len(),
            trim(v@.subrange(lo as int, hi as int)) == trim_end(v@.subrange(a as int, b as int)),
        decreases b - a,
    {
        assert(v@.subrange(a as int, b as int).drop_last() == v@.subrange(a as int, b - 1));
        b = b - 1;
    }
    (a, b)
}

/// Trimming cuts a text at both ends and keeps the middle as it is.
pub proof fn lemma_trim_is_subrange(s: Seq<char>)
    ensures
        exists|a: int, b: int| 0 <= a <= b <= s.len() && trim(s) == s.subrange(a, b),
{
    let a = lemma_trim_start_cut(s);
    let t = trim_start(s);
    let b = lemma_trim_end_cut(t);
    assert(trim(s) == s.subrange(a, a + b));
}

pub proof fn lemma_trim_start_cut(s: Seq<char>) -> (a: int)
    ensures
        0 <= a <= s.len(),
        trim_start(s) == s.subrange(a, s.len() as int),
    decreases s.len(),
{
    if s.len() > 0 && is_white_space(s[0]) {
        let a = lemma_trim_start_cut(s.drop_first());
        assert(s.drop_first().subrange(a, s.len() - 1) == s.subrange(a + 1, s.len() as int));
        a + 1
    } else {
        assert(s.subrange(0, s.len() as int) == s);
        0
    }
}

pub proof fn lemma_trim_end_cut(s: Seq<char>) -> (b: int)
    ensures
        0 <= b <= s.len(),
        trim_end(s) == s.subrange(0, b),
    decreases s.len(),
{
    if s.len() > 0 && is_white_space(s.last()) {
        let b = lemma_trim_end_cut(s.drop_last());
        assert(s.drop_last().subrange(0, b) == s.subrange(0, b));
        b
    } else {
        assert(s.subrange(0, s.len() as int) == s);
        s.len() as int
    }
}

/// Whether `t` neither begins nor ends with white space.
pub open spec fn is_trimmed(t: Seq<char>) -> bool {
    t.len() > 0 ==> !is_white_space(t[0]) && !is_white_space(t.last())
}

pub proof fn lemma_trim_start(s: Seq<char>)
    ensures
        trim_start(s).len() > 0 ==> !is_white_space(trim_start(s)[0]),
    decreases s.len(),
{
    if s.len() > 0 && is_white_space(s[0]) {
        lemma_trim_start(s.drop_first());
    }
}

pub proof fn lemma_trim_end(s: Seq<char>)
    ensures
        trim_end(s).len() > 0 ==> !is_white_space(trim_end(s).last()),
        trim_end(s).len() > 0 ==> trim_end(s)[0] == s[0],
        trim_end(s).len() <= s.len(),
    decreases s.len(),
{
    if s.len() > 0 && is_white_space(s.last()) {
        lemma_trim_end(s.drop_last());
    }
}

/// A trimmed text neither begins nor ends with white space.
pub proof fn lemma_trim_trimmed(s: Seq<char>)
    ensures
        is_trimmed(trim(s)),
{
    lemma_trim_start(s);
    lemma_trim_end(trim_start(s));
}

/// `v@[lo..hi]` without leading and trailing white space.
pub fn trim_range(v: &[char], lo: usize, hi: usize) -> (r: Vec<char>)
    requires
        lo <= hi <= v@.len(),
    ensures
        r@ == trim(v@.subrange(lo as int, hi as int)),
{
    let (a, b) = trimmed_bounds(v, lo, hi);
    slice_chars(v, a, b)
}

/// `v` without leading and trailing white space.
pub fn trim_chars(v: &[char]) -> (r: Vec<char>)
    ensures
        r@ == trim(v@),
{
    assert(v@.subrange(0, v@.len() as int) == v@);
    trim_range(v, 0, v.len())
}

// ---------------------------------------------------------------------------
// Lines
// ---------------------------------------------------------------------------

/// The first index at or after `i` that holds a line feed, or the length of `s`.
pub open spec fn newline_from(s: Seq<char>, i: int) -> int
    decreases s.len() - i,
{
    if i >= s.len() {
        s.len() as int
    } else if s[i] == '\n' {
        i
    } else {
        newline_from(s, i + 1)
    }
}

/// `newline_from` finds the nearest line feed.
pub proof fn lemma_newline_from(s: Seq<char>, i: int)
    requires
        i <= s.len(),
    ensures
        i <= newline_from(s, i) <= s.len(),
        newline_from(s, i) < s.len() ==> s[newline_from(s, i)] == '\n',
        forall|k: int| i <= k < newline_from(s, i) ==> s[k] != '\n',
    decreases s.len() - i,
{
    if i < s.len() && s[i] != '\n' {
        lemma_newline_from(s, i + 1);
    }
}

/// `l` without one carriage return at its end.
pub open spec fn strip_cr(l: Seq<char>) -> Seq<char> {
    if l.len() > 0 && l.last() == '\r' {
        l.drop_last()
    } else {
        l
    }
}

/// The lines of `s` from index `i` on.
pub open spec fn lines_from(s: Seq<char>, i: int) -> Seq<Seq<char>>
    decreases s.len() - i,
{
    if i >= s.len() {
        seq![]
    } else {
        let e = newline_from(s, i);
        if e >= s.len() {
            seq![s.subrange(i, s.len() as int)]
        } else {
            proof {
                lemma_newline_from(s, i);
            }
            seq![strip_cr(s.subrange(i, e))] + lines_from(s, e + 1)
        }
    }
}

/// The lines of `s`, as `str::lines` gives them: `s` is cut at each line
/// feed, a carriage return just before a line feed goes with it, and a line
/// feed at the very end opens no further line.
pub open spec fn lines(s: Seq<char>) -> Seq<Seq<char>> {
    lines_from(s, 0)
}

/// The character sequences held by a sequence of vectors.
pub open spec fn views(v: Seq<Vec<char>>) -> Seq<Seq<char>> {
    v.map_values(|l: Vec<char>| l@)
}

/// The character sequences held by a sequence of strings.
pub open spec fn string_views(v: Seq<String>) -> Seq<Seq<char>> {
    v.map_values(|l: String| l@)
}

/// The index of the first line feed at or after `i`, or the length of `v`.
pub fn find_newline(v: &[char], i: usize) -> (e: usize)
    requires
        i <= v@.len(),
    ensures
        e == newline_from(v@, i as int),
{
    let mut e = i;
    while e < v.len() && v[e] != '\n'
        invariant
            i <= e <= v@.len(),
            newline_from(v@, i as int) == newline_from(v@, e as int),
        decreases v@.len() - e,
    {
        e = e + 1;
    }
    e
}

/// The lines of `v`, as `str::lines` gives them.
pub fn split_lines(v: &[char]) -> (r: Vec<Vec<char>>)
    ensures
        views(r@) == lines(v@),
{
    let mut r: Vec<Vec<char>> = Vec::new();
    let mut i: usize = 0;
    while i < v.len()
        invariant
            0 <= i <= v@.len(),
            lines(v@) == views(r@) + lines_from(v@, i as int),
        decreases v@.len() - i,
    {
        let e = find_newline(v, i);
        proof {
            lemma_newline_from(v@, i as int);
        }
        if e == v.len() {
            let line = slice_chars(v, i, e);
            let ghost before = r@;
            r.push(line);
            assert(views(r@) == views(before).push(line@));
            assert(lines_from(v@, e as int) == Seq::<Seq<char>>::empty());
            i = e;
        } else {
            let mut line = slice_chars(v, i, e);
            if line.len() > 0 && line[line.len() - 1] == '\r' {
                line.pop();
            }
            let ghost before = r@;
            r.push(line);
            assert(views(r@) == views(before).push(line@));
            i = e + 1;
        }
    }
    assert(lines_from(v@, i as int) == Seq::<Seq<char>>::empty());
    r
}

// ---------------------------------------------------------------------------
// Prefixes, replacement, joining
// ---------------------------------------------------------------------------

/// Whether `p` occurs in `s` at index `i`.
pub open spec fn occurs_at(s: Seq<char>, i: int, p: Seq<char>) -> bool {
    0 <= i && i + p.len() <= s.len() && s.subrange(i, i + p.len()) == p
}

/// Whether `s` begins with `p`.
pub open spec fn starts_with(s: Seq<char>, p: Seq<char>) -> bool {
    occurs_at(s, 0, p)
}

/// Whether `p` occurs in `v` at index `i`.
pub fn occurs_at_exec(v: &[char], i: usize, p: &[char]) -> (r: bool)
    ensures
        r == occurs_at(v@, i as int, p@),
{
    if i > v.len() || p.len() > v.len() - i {
        return false;
    }
    let end = i + p.len();
    let mut k: usize = 0;
    while k < p.len()
        invariant
            end == i + p@.len(),
            i + p@.len() <= v@.len(),
            0 <= k <= p@.len(),
            forall|j: int| 0 <= j < k ==> v@[i + j] == p@[j],
        decreases p@.len() - k,
    {
        if v[i + k] != p[k] {
            assert(v@.subrange(i as int, i + p@.len())[k as int] != p@[k as int]);
            return false;
        }
        k = k + 1;
    }
    assert(v@.subrange(i as int, i + p@.len()) =~= p@);
    true
}

/// Whether `v` begins with `p`.
pub fn starts_with_exec(v: &[char], p: &[char]) -> (r: bool)
    ensures
        r == starts_with(v@, p@),
{
    occurs_at_exec(v, 0, p)
}

/// `s` from index `i` on, with each occurrence of `pat` replaced by `rep`;
/// occurrences are taken from the left and do not overlap.
pub open spec fn replace_from(s: Seq<char>, i: int, pat: Seq<char>, rep: Seq<char>) -> Seq<char>
    decreases s.len() - i,
{
    if i < 0 || i >= s.len() {
        seq![]
    } else if pat.len() > 0 && occurs_at(s, i, pat) {
        rep + replace_from(s, i + pat.len(), pat, rep)
    } else {
        seq![s[i]] + replace_from(s, i + 1, pat, rep)
    }
}

/// `s` with each occurrence of the non-empty `pat` replaced by `rep`, as
/// `str::replace` does it.
pub open spec fn replace_all(s: Seq<char>, pat: Seq<char>, rep: Seq<char>) -> Seq<char> {
    replace_from(s, 0, pat, rep)
}

/// `v` with each occurrence of `pat` replaced by `rep`.
pub fn replace_chars(v: &[char], pat: &[char], rep: &[char]) -> (r: Vec<char>)
    ensures
        r@ == replace_all(v@, pat@, rep@),
{
    let mut r: Vec<char> = Vec::new();
    let mut i: usize = 0;
    while i < v.len()
        invariant
            0 <= i <= v@.len(),
            replace_all(v@, pat@, rep@) == r@ + replace_from(v@, i as int, pat@, rep@),
        decreases v@.len() - i,
    {
        if pat.len() > 0 && occurs_at_exec(v, i, pat) {
            let ghost before = r@;
            push_all(&mut r, rep);
            assert(before + (rep@ + replace_from(v@, i + pat@.len(), pat@, rep@)) == r@
                + replace_from(v@, i + pat@.len(), pat@, rep@));
            i = i + pat.len();
        } else {
            let ghost before = r@;
            r.push(v[i]);
            assert(before + (seq![v@[i as int]] + replace_from(v@, i + 1, pat@, rep@)) == r@
                + replace_from(v@, i + 1, pat@, rep@));
            i = i + 1;
        }
    }
    assert(r@ + replace_from(v@, i as int, pat@, rep@) == r@);
    r
}

/// `s` without the copies of `c` it begins with.
pub open spec fn strip_leading(s: Seq<char>, c: char) -> Seq<char>
    decreases s.len(),
{
    if s.len() > 0 && s[0] == c {
        strip_leading(s.drop_first(), c)
    } else {
        s
    }
}

/// `v` without the copies of `c` it begins with, as `str::trim_start_matches`
/// gives it for a single character.
pub fn strip_leading_chars(v: &[char], c: char) -> (r: Vec<char>)
    ensures
        r@ == strip_leading(v@, c),
{
    let mut a: usize = 0;
    assert(v@.subrange(0, v@.len() as int) == v@);
    while a < v.len() && v[a] == c
        invariant
            0 <= a <= v@.len(),
            strip_leading(v@, c) == strip_leading(v@.subrange(a as int, v@.len() as int), c),
        decreases v@.len() - a,
    {
        assert(v@.subrange(a as int, v@.len() as int).drop_first() == v@.subrange(
            a + 1,
            v@.len() as int,
        ));
        a = a + 1;
    }
    slice_chars(v, a, v.len())
}

/// The parts joined with `sep` between each two, as `[String]::join` does it.
pub open spec fn join(parts: Seq<Seq<char>>, sep: Seq<char>) -> Seq<char>
    decreases parts.len(),
{
    if parts.len() == 0 {
        seq![]
    } else if parts.len() == 1 {
        parts[0]
    } else {
        join(parts.drop_last(), sep) + sep + parts.last()
    }
}

/// The strings joined with `sep` between each two.
pub fn join_strings(parts: &[String], sep: &[char]) -> (r: Vec<char>)
    ensures
        r@ == join(string_views(parts@), sep@),
{
    let mut r: Vec<char> = Vec::new();
    let mut i: usize = 0;
    while i < parts.len()
        invariant
            0 <= i <= parts@.len(),
            r@ == join(string_views(parts@.subrange(0, i as int)), sep@),
        decreases parts@.len() - i,
    {
        let ghost prev = string_views(parts@.subrange(0, i as int));
        let ghost next = string_views(parts@.subrange(0, i + 1));
        assert(next.drop_last() == prev);
        assert(next.last() == parts@[i as int]@);
        if i > 0 {
            push_all(&mut r, sep);
        }
        let cs = chars_of(parts[i].as_str());
        push_all(&mut r, cs.as_slice());
        i = i + 1;
    }
    assert(parts@.subrange(0, parts@.len() as int) == parts@);
    r
}

// ---------------------------------------------------------------------------
// Numbers
// ---------------------------------------------------------------------------

/// The decimal digit for `d`, which is below ten.
pub open spec fn digit_char(d: nat) -> char {
    ((48 + d) as u8) as char
}

/// The decimal notation of `n`, without leading zeros.
pub open spec fn decimal(n: nat) -> Seq<char>
    decreases n,
{
    if n < 10 {
        seq![digit_char(n)]
    } else {
        decimal(n / 10) + seq![digit_char(n % 10)]
    }
}

/// Appends the decimal notation of `n` to `out`.
pub fn push_decimal(out: &mut Vec<char>, n: usize)
    ensures
        final(out)@ == old(out)@ + decimal(n as nat),
    decreases n,
{
    if n >= 10 {
        push_decimal(out, n / 10);
    }
    let d = (n % 10) as u8;
    out.push((48u8 + d) as char);
}

/// No line of a text holds a line feed, and a text without line feeds is a
/// single line (or none, where it is empty).
pub proof fn law_lines_hold_no_line_feed(s: Seq<char>)
    ensures
        forall|k: int, m: int|
            0 <= k < lines(s).len() && 0 <= m < lines(s)[k].len() ==> #[trigger] lines(s)[k][m]
                != '\n',
        (forall|m: int| 0 <= m < s.len() ==> s[m] != '\n') && s.len() > 0 ==> lines(s) == seq![s],
        s.len() == 0 ==> lines(s).len() == 0,
{
    lemma_lines_from_no_line_feed(s, 0);
    if s.len() > 0 && (forall|m: int| 0 <= m < s.len() ==> s[m] != '\n') {
        lemma_newline_from(s, 0);
        assert(s.subrange(0, s.len() as int) == s);
    }
}

proof fn lemma_lines_from_no_line_feed(s: Seq<char>, i: int)
    requires
        0 <= i,
    ensures
        forall|k: int, m: int|
            0 <= k < lines_from(s, i).len() && 0 <= m < lines_from(s, i)[k].len() ==> #[trigger] lines_from(
                s,
                i,
            )[k][m] != '\n',
    decreases s.len() - i,
{
    if i < s.len() {
        lemma_newline_from(s, i);
        let e = newline_from(s, i);
        if e < s.len() {
            lemma_lines_from_no_line_feed(s, e + 1);
            let first = strip_cr(s.subrange(i, e));
            let rest = lines_from(s, e + 1);
            assert(lines_from(s, i) == seq![first] + rest);
            assert forall|k: int, m: int|
                0 <= k < lines_from(s, i).len() && 0 <= m < lines_from(s, i)[k].len() implies #[trigger] lines_from(
                s,
                i,
            )[k][m] != '\n' by {
                if k == 0 {
                    assert(first[m] == s[i + m]);
                } else {
                    assert(lines_from(s, i)[k] == rest[k - 1]);
                }
            }
        } else {
            assert forall|k: int, m: int|
                0 <= k < lines_from(s, i).len() && 0 <= m < lines_from(s, i)[k].len() implies #[trigger] lines_from(
                s,
                i,
            )[k][m] != '\n' by {
                assert(lines_from(s, i)[k][m] == s[i + m]);
            }
        }
    }
}

} // verus!
