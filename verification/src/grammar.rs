//! The annotation grammar: which lines count as TODO annotations, and the
//! priority marker ("tod" followed by one or more "o"s, any capitalisation)
//! whose length is the urgency score of a line.

use vstd::prelude::*;

verus! {

/// Characters the grammar treats as whitespace (the ASCII whitespace set).
pub open spec fn is_space(c: char) -> bool {
    c == ' ' || c == '\t' || c == '\n' || c == '\r' || c == '\x0B' || c == '\x0C'
}

pub open spec fn is_marker_t(c: char) -> bool {
    c == 't' || c == 'T'
}

pub open spec fn is_marker_o(c: char) -> bool {
    c == 'o' || c == 'O'
}

pub open spec fn is_marker_d(c: char) -> bool {
    c == 'd' || c == 'D'
}

/// A priority marker ("tod" then at least one "o") begins at index `p`.
pub open spec fn marker_at(s: Seq<char>, p: int) -> bool {
    &&& 0 <= p
    &&& p + 4 <= s.len()
    &&& is_marker_t(s[p])
    &&& is_marker_o(s[p + 1])
    &&& is_marker_d(s[p + 2])
    &&& is_marker_o(s[p + 3])
}

/// First index at or after `i` whose character is not an "o" (or the end).
pub open spec fn o_run_end(s: Seq<char>, i: int) -> int
    decreases s.len() - i,
{
    if i < s.len() && is_marker_o(s[i]) {
        o_run_end(s, i + 1)
    } else {
        i
    }
}

/// Index of the first marker at or after `i`, or -1 if there is none.
pub open spec fn first_marker(s: Seq<char>, i: int) -> int
    decreases s.len() - i,
{
    if i + 4 > s.len() {
        -1
    } else if marker_at(s, i) {
        i
    } else {
        first_marker(s, i + 1)
    }
}

/// The urgency score of a line: the length of the leftmost maximal marker
/// match ("tod" plus its whole run of "o"s), or 0 when no marker occurs.
/// 0 is the sentinel minimum: it ranks below every real score, which is
/// always at least 4.
pub open spec fn priority_of(s: Seq<char>) -> int {
    let p = first_marker(s, 0);
    if p >= 0 {
        o_run_end(s, p + 3) - p
    } else {
        0
    }
}

/// End of the whitespace run that starts at `i`.
pub open spec fn ws_end(s: Seq<char>, i: int) -> int
    decreases s.len() - i,
{
    if i < s.len() && is_space(s[i]) {
        ws_end(s, i + 1)
    } else {
        i
    }
}

/// End of the non-whitespace run that starts at `i`.
pub open spec fn token_end(s: Seq<char>, i: int) -> int
    decreases s.len() - i,
{
    if i < s.len() && !is_space(s[i]) {
        token_end(s, i + 1)
    } else {
        i
    }
}

/// What may follow the marker's "o" run at index `q`: an optional colon,
/// then one whitespace character, then arbitrary trailing text.
pub open spec fn marker_tail_ok(s: Seq<char>, q: int) -> bool {
    ||| (q < s.len() && is_space(s[q]))
    ||| (q + 1 < s.len() && s[q] == ':' && is_space(s[q + 1]))
}

/// A complete marker word starts at `p`: the marker itself, then a
/// well-formed tail after its "o" run.
pub open spec fn todo_word_at(s: Seq<char>, p: int) -> bool {
    marker_at(s, p) && marker_tail_ok(s, o_run_end(s, p + 3))
}

/// The annotation grammar for a whole line: optional leading whitespace,
/// a non-empty lead-in token, one whitespace character, then a complete
/// marker word.  A bare line that opens with the marker word itself has
/// no lead-in token and does not match.
pub open spec fn is_todo_line(s: Seq<char>) -> bool {
    let i = ws_end(s, 0);
    let j = token_end(s, i);
    j > i && j < s.len() && todo_word_at(s, j + 1)
}

proof fn lemma_o_run_end_bounds(s: Seq<char>, i: int)
    requires
        0 <= i <= s.len(),
    ensures
        i <= o_run_end(s, i) <= s.len(),
    decreases s.len() - i,
{
    if i < s.len() && is_marker_o(s[i]) {
        lemma_o_run_end_bounds(s, i + 1);
    }
}

/// A non-negative `first_marker` result is a real marker position, and the
/// earliest one at or after the search start.
pub proof fn lemma_first_marker_sound(s: Seq<char>, i: int)
    requires
        first_marker(s, i) >= 0,
    ensures
        marker_at(s, first_marker(s, i)),
        i <= first_marker(s, i),
        first_marker(s, i) + 4 <= s.len(),
    decreases s.len() - i,
{
    if i + 4 > s.len() {
    } else if marker_at(s, i) {
    } else {
        lemma_first_marker_sound(s, i + 1);
    }
}

/// Wherever a marker occurs, the search finds one no later than it.
pub proof fn lemma_first_marker_complete(s: Seq<char>, i: int, p: int)
    requires
        i <= p,
        marker_at(s, p),
    ensures
        0 <= first_marker(s, i) <= p,
    decreases p - i,
{
    if i + 4 > s.len() {
        assert(false);
    } else if marker_at(s, i) {
    } else {
        lemma_first_marker_complete(s, i + 1, p);
    }
}

/// The sentinel law: a string scores 0 exactly when it holds no marker,
/// and every real marker yields a score of at least 4.
pub proof fn lemma_priority_sentinel(s: Seq<char>)
    ensures
        (exists|p: int| marker_at(s, p)) <==> priority_of(s) >= 4,
        (priority_of(s) == 0) <==> !(exists|p: int| marker_at(s, p)),
        priority_of(s) == 0 || priority_of(s) >= 4,
{
    if exists|p: int| marker_at(s, p) {
        let p = choose|p: int| marker_at(s, p);
        lemma_first_marker_complete(s, 0, p);
        let m = first_marker(s, 0);
        lemma_first_marker_sound(s, 0);
        assert(is_marker_o(s[m + 3]));
        assert(o_run_end(s, m + 3) == o_run_end(s, m + 4));
        lemma_o_run_end_bounds(s, m + 4);
        assert(priority_of(s) >= 4);
    } else {
        if first_marker(s, 0) >= 0 {
            lemma_first_marker_sound(s, 0);
            assert(false);
        }
        assert(priority_of(s) == 0);
    }
}

/// A classified line always holds a marker, so its score is at least 4.
pub proof fn lemma_todo_line_has_marker(s: Seq<char>)
    requires
        is_todo_line(s),
    ensures
        first_marker(s, 0) >= 0,
        priority_of(s) >= 4,
{
    let i = ws_end(s, 0);
    let j = token_end(s, i);
    assert(marker_at(s, j + 1));
    lemma_priority_sentinel(s);
    lemma_first_marker_complete(s, 0, j + 1);
}

fn space_char(c: char) -> (b: bool)
    ensures
        b == is_space(c),
{
    c == ' ' || c == '\t' || c == '\n' || c == '\r' || c == '\x0B' || c == '\x0C'
}

fn t_char(c: char) -> (b: bool)
    ensures
        b == is_marker_t(c),
{
    c == 't' || c == 'T'
}

fn o_char(c: char) -> (b: bool)
    ensures
        b == is_marker_o(c),
{
    c == 'o' || c == 'O'
}

fn d_char(c: char) -> (b: bool)
    ensures
        b == is_marker_d(c),
{
    c == 'd' || c == 'D'
}

fn marker_here(s: &str, i: usize, n: usize) -> (b: bool)
    requires
        n == s@.len(),
        i + 4 <= n,
    ensures
        b == marker_at(s@, i as int),
{
    t_char(s.get_char(i)) && o_char(s.get_char(i + 1)) && d_char(s.get_char(i + 2)) && o_char(
        s.get_char(i + 3),
    )
}

/// Index of the leftmost priority marker of `s`, if any.
pub fn find_marker(s: &str) -> (r: Option<usize>)
    ensures
        first_marker(s@, 0) >= 0 ==> r == Some(first_marker(s@, 0) as usize),
        first_marker(s@, 0) < 0 ==> r is None,
        s@.len() <= usize::MAX,
{
    let n = s.unicode_len();
    let mut i: usize = 0;
    while n - i >= 4
        invariant
            i <= n,
            n == s@.len(),
            first_marker(s@, 0) == first_marker(s@, i as int),
        decreases n - i,
    {
        if marker_here(s, i, n) {
            return Some(i);
        }
        i = i + 1;
    }
    None
}

/// The urgency score of a line: the length of the leftmost maximal marker
/// match, or 0 (the sentinel minimum) when the line holds no marker.
pub fn measure_priority(s: &str) -> (p: usize)
    ensures
        p == priority_of(s@),
{
    match find_marker(s) {
        None => 0,
        Some(m) => {
            proof {
                lemma_first_marker_sound(s@, 0);
            }
            let n = s.unicode_len();
            let mut q: usize = m + 3;
            while q < n && o_char(s.get_char(q))
                invariant
                    m + 3 <= q <= n,
                    n == s@.len(),
                    o_run_end(s@, m + 3) == o_run_end(s@, q as int),
                decreases n - q,
            {
                q = q + 1;
            }
            q - m
        },
    }
}

/// Whether a single line satisfies the annotation grammar.
#[verifier::loop_isolation(false)]
pub fn classify(line: &str) -> (matched: bool)
    ensures
        matched == is_todo_line(line@),
{
    let n = line.unicode_len();
    let mut i: usize = 0;
    while i < n && space_char(line.get_char(i))
        invariant
            i <= n,
            ws_end(line@, 0) == ws_end(line@, i as int),
        decreases n - i,
    {
        i = i + 1;
    }
    let mut j: usize = i;
    while j < n && !space_char(line.get_char(j))
        invariant
            i <= j <= n,
            token_end(line@, i as int) == token_end(line@, j as int),
        decreases n - j,
    {
        j = j + 1;
    }
    if j == i || j >= n {
        return false;
    }
    let p = j + 1;
    if n - p < 4 {
        return false;
    }
    if !t_char(line.get_char(p)) {
        return false;
    }
    if !o_char(line.get_char(p + 1)) {
        return false;
    }
    if !d_char(line.get_char(p + 2)) {
        return false;
    }
    if !o_char(line.get_char(p + 3)) {
        return false;
    }
    let mut q: usize = p + 3;
    while q < n && o_char(line.get_char(q))
        invariant
            p + 3 <= q <= n,
            o_run_end(line@, p + 3) == o_run_end(line@, q as int),
        decreases n - q,
    {
        q = q + 1;
    }
    if q < n && space_char(line.get_char(q)) {
        return true;
    }
    if n - q >= 2 && line.get_char(q) == ':' && space_char(line.get_char(q + 1)) {
        return true;
    }
    false
}

/// The views of a sequence of owned lines.
pub open spec fn line_views(lines: Seq<String>) -> Seq<Seq<char>> {
    lines.map_values(|s: String| s@)
}

/// Row numbers, in ascending order, of the classified lines among the
/// first `k` rows.
pub open spec fn todo_rows_upto(lines: Seq<Seq<char>>, k: int) -> Seq<usize>
    decreases k,
{
    if k <= 0 {
        Seq::empty()
    } else if is_todo_line(lines[k - 1]) {
        todo_rows_upto(lines, k - 1).push((k - 1) as usize)
    } else {
        todo_rows_upto(lines, k - 1)
    }
}

/// Row numbers, in ascending order, of every classified line.
pub open spec fn todo_rows(lines: Seq<Seq<char>>) -> Seq<usize> {
    todo_rows_upto(lines, lines.len() as int)
}

/// The row list holds exactly the classified rows below `k`, in strictly
/// ascending order.
pub proof fn lemma_todo_rows_upto(lines: Seq<Seq<char>>, k: int, rows: Seq<usize>)
    requires
        0 <= k,
        k - 1 <= usize::MAX,
        rows == todo_rows_upto(lines, k),
    ensures
        forall|a: int|
            0 <= a < rows.len() ==> (#[trigger] rows[a]) < k && is_todo_line(
                lines[rows[a] as int],
            ),
        forall|i: int| 0 <= i < k && is_todo_line(lines[i]) ==> rows.contains(i as usize),
        forall|a: int, b: int| 0 <= a < b < rows.len() ==> rows[a] < rows[b],
    decreases k,
{
    if k <= 0 {
    } else {
        let prev = todo_rows_upto(lines, k - 1);
        lemma_todo_rows_upto(lines, k - 1, prev);
        assert forall|i: int| 0 <= i < k && is_todo_line(lines[i]) implies rows.contains(
            i as usize,
        ) by {
            if i < k - 1 {
                assert(prev.contains(i as usize));
                let a = choose|a: int| 0 <= a < prev.len() && prev[a] == i as usize;
                assert(rows[a] == i as usize);
            } else {
                assert(rows[rows.len() - 1] == i as usize);
            }
        }
    }
}

/// The row numbers, in ascending order, of every line of `source` that
/// satisfies the annotation grammar.
pub fn find_all_todo_lines(source: &Vec<String>) -> (rows: Vec<usize>)
    ensures
        rows@ == todo_rows(line_views(source@)),
        forall|a: int|
            0 <= a < rows@.len() ==> (#[trigger] rows@[a]) < source@.len() && is_todo_line(
                source@[rows@[a] as int]@,
            ),
        forall|i: int|
            0 <= i < source@.len() && is_todo_line(source@[i]@) ==> rows@.contains(i as usize),
        forall|a: int, b: int| 0 <= a < b < rows@.len() ==> rows@[a] < rows@[b],
{
    let n = source.len();
    let mut rows: Vec<usize> = Vec::new();
    let mut k: usize = 0;
    while k < n
        invariant
            k <= n,
            n == source@.len(),
            rows@ == todo_rows_upto(line_views(source@), k as int),
        decreases n - k,
    {
        if classify(source[k].as_str()) {
            rows.push(k);
        }
        k = k + 1;
    }
    proof {
        lemma_todo_rows_upto(line_views(source@), n as int, rows@);
        assert forall|i: int|
            0 <= i < source@.len() && is_todo_line(source@[i]@) implies rows@.contains(
            i as usize,
        ) by {
            assert(line_views(source@)[i] == source@[i]@);
        }
    }
    rows
}

} // verus!
