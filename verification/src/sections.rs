use vstd::prelude::*;
use crate::text::{
    is_trimmed, is_white_space, lemma_newline_from, lemma_trim_trimmed, newline_from, trim, white_space,
};

verus! {

// ---------------------------------------------------------------------------
// The header grammar
//
// A document's text is divided into sections by header lines: a line that
// begins with `#` followed by white space. The white space after the `#` may
// run on over several lines; the header's name is the rest of the line on
// which that run ends.
// ---------------------------------------------------------------------------

/// Whether index `k` of `s` begins a line.
pub open spec fn line_start(s: Seq<char>, k: int) -> bool {
    k == 0 || (0 < k <= s.len() && s[k - 1] == '\n')
}

/// Whether a header begins at index `k` of `s`.
pub open spec fn header_at(s: Seq<char>, k: int) -> bool {
    &&& 0 <= k
    &&& k + 1 < s.len()
    &&& line_start(s, k)
    &&& s[k] == '#'
    &&& is_white_space(s[k + 1])
}

/// The first index at or after `i` that holds no white space, or the length of `s`.
pub open spec fn white_run_end(s: Seq<char>, i: int) -> int
    decreases s.len() - i,
{
    if 0 <= i < s.len() && is_white_space(s[i]) {
        white_run_end(s, i + 1)
    } else {
        i
    }
}

/// The first index at or after `p` where a header begins, or the length of `s`.
pub open spec fn next_header(s: Seq<char>, p: int) -> int
    decreases s.len() - p,
{
    if p >= s.len() {
        s.len() as int
    } else if header_at(s, p) {
        p
    } else {
        next_header(s, p + 1)
    }
}

pub proof fn lemma_white_run_end(s: Seq<char>, i: int)
    requires
        0 <= i <= s.len(),
    ensures
        i <= white_run_end(s, i) <= s.len(),
        forall|k: int| i <= k < white_run_end(s, i) ==> is_white_space(s[k]),
        white_run_end(s, i) < s.len() ==> !is_white_space(s[white_run_end(s, i)]),
    decreases s.len() - i,
{
    if i < s.len() && is_white_space(s[i]) {
        lemma_white_run_end(s, i + 1);
    }
}

pub proof fn lemma_next_header(s: Seq<char>, p: int)
    requires
        0 <= p <= s.len(),
    ensures
        p <= next_header(s, p) <= s.len(),
        next_header(s, p) < s.len() ==> header_at(s, next_header(s, p)),
        forall|k: int| p <= k < next_header(s, p) ==> !header_at(s, k),
    decreases s.len() - p,
{
    if p < s.len() && !header_at(s, p) {
        lemma_next_header(s, p + 1);
    }
}

/// Where the header found at `k` places the start of its name, the end of its
/// name, and so the start of the section it opens.
pub proof fn lemma_header_bounds(s: Seq<char>, k: int)
    requires
        header_at(s, k),
    ensures
        k + 2 <= white_run_end(s, k + 1) <= newline_from(s, white_run_end(s, k + 1)) <= s.len(),
{
    lemma_white_run_end(s, k + 2);
    assert(white_run_end(s, k + 1) == white_run_end(s, k + 2));
    lemma_newline_from(s, white_run_end(s, k + 1));
}

/// A section: the name of the header that opens it and its trimmed text.
pub type Section = (Seq<char>, Seq<char>);

/// The sections of `s` from index `pos` on, where the section that runs from
/// `pos` is called `name`.
pub open spec fn sections_from(s: Seq<char>, pos: int, name: Seq<char>) -> Seq<Section>
    decreases s.len() - pos,
{
    if pos < 0 || pos > s.len() {
        seq![]
    } else {
        let k = next_header(s, pos);
        if k >= s.len() {
            seq![(name, trim(s.subrange(pos, s.len() as int)))]
        } else {
            proof {
                lemma_next_header(s, pos);
                lemma_header_bounds(s, k);
            }
            let j = white_run_end(s, k + 1);
            let e = newline_from(s, j);
            seq![(name, trim(s.subrange(pos, k)))] + sections_from(s, e, trim(s.subrange(j, e)))
        }
    }
}

/// The name of the section that a document's text opens with.
pub open spec fn description_section() -> Seq<char> {
    seq!['D', 'e', 's', 'c', 'r', 'i', 'p', 't', 'i', 'o', 'n']
}

pub open spec fn inputs_section() -> Seq<char> {
    seq!['I', 'n', 'p', 'u', 't', 's']
}

pub open spec fn type_section() -> Seq<char> {
    seq!['T', 'y', 'p', 'e']
}

pub open spec fn examples_section() -> Seq<char> {
    seq!['E', 'x', 'a', 'm', 'p', 'l', 'e', 's']
}

/// The sections of a document's text, in order. The first is the description.
pub open spec fn sections(s: Seq<char>) -> Seq<Section> {
    sections_from(s, 0, description_section())
}

/// The text of the last section called `name`, or nothing where none is.
pub open spec fn section_text(secs: Seq<Section>, name: Seq<char>) -> Seq<char>
    decreases secs.len(),
{
    if secs.len() == 0 {
        seq![]
    } else if secs.last().0 == name {
        secs.last().1
    } else {
        section_text(secs.drop_last(), name)
    }
}

// ---------------------------------------------------------------------------
// Executable scanning
// ---------------------------------------------------------------------------

/// Whether a header begins at index `k` of `v`.
pub fn header_at_exec(v: &[char], k: usize) -> (r: bool)
    ensures
        r == header_at(v@, k as int),
{
    if k >= v.len() || v.len() - k < 2 {
        return false;
    }
    let starts_line = k == 0 || v[k - 1] == '\n';
    starts_line && v[k] == '#' && white_space(v[k + 1])
}

/// The first index at or after `p` where a header begins, or the length of `v`.
pub fn find_header(v: &[char], p: usize) -> (k: usize)
    requires
        p <= v@.len(),
    ensures
        k == next_header(v@, p as int),
{
    let mut k = p;
    while k < v.len() && !header_at_exec(v, k)
        invariant
            p <= k <= v@.len(),
            next_header(v@, p as int) == next_header(v@, k as int),
        decreases v@.len() - k,
    {
        k = k + 1;
    }
    k
}

/// The first index at or after `i` that holds no white space, or the length of `v`.
pub fn skip_white(v: &[char], i: usize) -> (j: usize)
    requires
        i <= v@.len(),
    ensures
        j == white_run_end(v@, i as int),
{
    let mut j = i;
    while j < v.len() && white_space(v[j])
        invariant
            i <= j <= v@.len(),
            white_run_end(v@, i as int) == white_run_end(v@, j as int),
        decreases v@.len() - j,
    {
        j = j + 1;
    }
    j
}

// ---------------------------------------------------------------------------
// Laws of the sections
// ---------------------------------------------------------------------------

proof fn lemma_sections_trimmed(s: Seq<char>, pos: int, name: Seq<char>)
    ensures
        forall|k: int|
            0 <= k < sections_from(s, pos, name).len() ==> is_trimmed(
                #[trigger] sections_from(s, pos, name)[k].1,
            ),
    decreases s.len() - pos,
{
    if 0 <= pos <= s.len() {
        let k = next_header(s, pos);
        if k >= s.len() {
            lemma_trim_trimmed(s.subrange(pos, s.len() as int));
        } else {
            lemma_next_header(s, pos);
            lemma_header_bounds(s, k);
            let j = white_run_end(s, k + 1);
            let e = newline_from(s, j);
            lemma_trim_trimmed(s.subrange(pos, k));
            lemma_sections_trimmed(s, e, trim(s.subrange(j, e)));
            let rest = sections_from(s, e, trim(s.subrange(j, e)));
            assert forall|m: int| 0 <= m < sections_from(s, pos, name).len() implies is_trimmed(
                #[trigger] sections_from(s, pos, name)[m].1,
            ) by {
                if m > 0 {
                    assert(sections_from(s, pos, name)[m] == rest[m - 1]);
                }
            }
        }
    }
}

proof fn lemma_section_text_trimmed(secs: Seq<Section>, name: Seq<char>)
    requires
        forall|k: int| 0 <= k < secs.len() ==> is_trimmed(#[trigger] secs[k].1),
    ensures
        is_trimmed(section_text(secs, name)),
    decreases secs.len(),
{
    if secs.len() > 0 && secs.last().0 != name {
        let t = secs.drop_last();
        assert forall|k: int| 0 <= k < t.len() implies is_trimmed(#[trigger] t[k].1) by {
            assert(t[k] == secs[k]);
        }
        lemma_section_text_trimmed(t, name);
    }
}

/// The text of every section, as the detail view takes it, neither begins
/// nor ends with white space.
pub proof fn law_section_texts_trimmed(s: Seq<char>, name: Seq<char>)
    ensures
        is_trimmed(section_text(sections(s), name)),
{
    lemma_sections_trimmed(s, 0, description_section());
    lemma_section_text_trimmed(sections(s), name);
}

/// A text always has sections. The first is the description: the trimmed
/// text before the first header line, or the whole trimmed text where it
/// has no header. A header opens the next section, named by the trimmed
/// rest of its line.
pub proof fn law_first_section_is_description(s: Seq<char>)
    ensures
        sections(s).len() >= 1,
        sections(s)[0] == (description_section(), trim(s.subrange(0, next_header(s, 0)))),
        next_header(s, 0) < s.len() ==> sections(s).len() >= 2 && sections(s)[1].0 == trim(
            s.subrange(
                white_run_end(s, next_header(s, 0) + 1),
                newline_from(s, white_run_end(s, next_header(s, 0) + 1)),
            ),
        ),
{
    lemma_next_header(s, 0);
    let k = next_header(s, 0);
    if k < s.len() {
        lemma_header_bounds(s, k);
        let j = white_run_end(s, k + 1);
        let e = newline_from(s, j);
        let rest = sections_from(s, e, trim(s.subrange(j, e)));
        assert(sections(s) == seq![(description_section(), trim(s.subrange(0, k)))] + rest);
        lemma_sections_nonempty(s, e, trim(s.subrange(j, e)));
        assert(sections(s)[1] == rest[0]);
    } else {
        assert(k == s.len());
    }
}

proof fn lemma_sections_nonempty(s: Seq<char>, pos: int, name: Seq<char>)
    requires
        0 <= pos <= s.len(),
    ensures
        sections_from(s, pos, name).len() >= 1,
        sections_from(s, pos, name)[0].0 == name,
{
    lemma_next_header(s, pos);
    let k = next_header(s, pos);
    if k < s.len() {
        lemma_header_bounds(s, k);
    }
}

} // verus!
