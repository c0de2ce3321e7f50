//! The text model: lines, trimming and space-splitting over `Seq<char>`,
//! with the verified scanning helpers the reader is built on.

use vstd::prelude::*;

verus! {

/// The characters trimmed from the ends of a line: ASCII whitespace.
pub open spec fn is_space(c: char) -> bool {
    c == ' ' || c == '\t' || c == '\n' || c == '\r' || c == '\x0b' || c == '\x0c'
}

/// Index of the first occurrence of `target` at or after `pos`,
/// or the length of `s` if there is none.
pub open spec fn scan_to(s: Seq<char>, pos: int, target: char) -> int
    decreases s.len() - pos,
{
    if pos < 0 || pos >= s.len() {
        s.len() as int
    } else if s[pos] == target {
        pos
    } else {
        scan_to(s, pos + 1, target)
    }
}

/// The scan stays within bounds, stops on `target` and nowhere earlier.
pub proof fn lemma_scan_to(s: Seq<char>, pos: int, target: char)
    requires
        0 <= pos <= s.len(),
    ensures
        pos <= scan_to(s, pos, target) <= s.len(),
        scan_to(s, pos, target) < s.len() ==> s[scan_to(s, pos, target)] == target,
        forall|k: int| pos <= k < scan_to(s, pos, target) ==> s[k] != target,
    decreases s.len() - pos,
{
    if pos < s.len() && s[pos] != target {
        lemma_scan_to(s, pos + 1, target);
    }
}

/// `s` with its leading run of whitespace removed.
pub open spec fn trim_start(s: Seq<char>) -> Seq<char>
    decreases s.len(),
{
    if s.len() > 0 && is_space(s[0]) {
        trim_start(s.drop_first())
    } else {
        s
    }
}

/// `s` with its trailing run of whitespace removed.
pub open spec fn trim_end(s: Seq<char>) -> Seq<char>
    decreases s.len(),
{
    if s.len() > 0 && is_space(s.last()) {
        trim_end(s.drop_last())
    } else {
        s
    }
}

/// `s` with whitespace removed from both ends.
pub open spec fn trim(s: Seq<char>) -> Seq<char> {
    trim_end(trim_start(s))
}

/// Dropping leading whitespace one character at a time reaches the same
/// suffix as slicing it off at a known boundary.
pub proof fn lemma_trim_start_at(s: Seq<char>, a: int)
    requires
        0 <= a <= s.len(),
        forall|k: int| 0 <= k < a ==> is_space(s[k]),
        a < s.len() ==> !is_space(s[a]),
    ensures
        trim_start(s) == s.subrange(a, s.len() as int),
    decreases a,
{
    if a == 0 {
        if s.len() > 0 && is_space(s[0]) {
            assert(false);
        }
        assert(s.subrange(0, s.len() as int) =~= s);
    } else {
        assert(s.drop_first() =~= s.subrange(1, s.len() as int));
        lemma_trim_start_at(s.drop_first(), a - 1);
        assert(s.drop_first().subrange(a - 1, s.drop_first().len() as int) =~= s.subrange(
            a,
            s.len() as int,
        ));
    }
}

/// Dropping trailing whitespace one character at a time reaches the same
/// prefix as cutting it at a known boundary.
pub proof fn lemma_trim_end_at(s: Seq<char>, b: int)
    requires
        0 <= b <= s.len(),
        forall|k: int| b <= k < s.len() ==> is_space(s[k]),
        b > 0 ==> !is_space(s[b - 1]),
    ensures
        trim_end(s) == s.subrange(0, b),
    decreases s.len() - b,
{
    if b == s.len() {
        if s.len() > 0 && is_space(s.last()) {
            assert(false);
        }
        assert(s.subrange(0, s.len() as int) =~= s);
    } else {
        assert(s.drop_last() =~= s.subrange(0, s.len() - 1));
        lemma_trim_end_at(s.drop_last(), b);
        assert(s.drop_last().subrange(0, b) =~= s.subrange(0, b));
    }
}

/// A sequence with no whitespace at either end is already trimmed.
pub proof fn lemma_trim_identity(s: Seq<char>)
    requires
        s.len() > 0 ==> !is_space(s[0]) && !is_space(s.last()),
    ensures
        trim(s) == s,
{
    lemma_trim_start_at(s, 0);
    assert(s.subrange(0, s.len() as int) =~= s);
    lemma_trim_end_at(s, s.len() as int);
}

/// The pieces of `s[pos..]` cut at every single space character, in order.
/// A run of consecutive spaces yields empty pieces between them, and the
/// result always holds at least one piece.
pub open spec fn space_split_from(s: Seq<char>, pos: int) -> Seq<Seq<char>>
    decreases s.len() - pos,
    when 0 <= pos <= s.len()
    via space_split_from_decreases
{
    let j = scan_to(s, pos, ' ');
    if j == s.len() {
        seq![s.subrange(pos, s.len() as int)]
    } else {
        seq![s.subrange(pos, j)] + space_split_from(s, j + 1)
    }
}

#[via_fn]
proof fn space_split_from_decreases(s: Seq<char>, pos: int) {
    lemma_scan_to(s, pos, ' ');
}

/// The pieces of `s` cut at every single space character.
pub open spec fn space_split(s: Seq<char>) -> Seq<Seq<char>> {
    space_split_from(s, 0)
}

/// Splitting yields at least one piece, even of an empty sequence.
pub proof fn lemma_space_split_len(s: Seq<char>, pos: int)
    requires
        0 <= pos <= s.len(),
    ensures
        space_split_from(s, pos).len() >= 1,
{
    lemma_scan_to(s, pos, ' ');
}

/// A sequence without spaces splits into exactly itself.
pub proof fn lemma_space_split_whole(s: Seq<char>)
    requires
        forall|k: int| 0 <= k < s.len() ==> s[k] != ' ',
    ensures
        space_split(s) == seq![s],
{
    lemma_scan_to(s, 0, ' ');
    assert(scan_to(s, 0, ' ') == s.len());
    assert(s.subrange(0, s.len() as int) =~= s);
}

/// The remaining lines of `s` from `pos` on: each line runs to the next
/// newline (consumed, not kept) or to the end of the data.
pub open spec fn lines_from(s: Seq<char>, pos: int) -> Seq<Seq<char>>
    decreases s.len() - pos,
    when 0 <= pos <= s.len()
    via lines_from_decreases
{
    if pos == s.len() {
        Seq::empty()
    } else {
        let j = scan_to(s, pos, '\n');
        seq![s.subrange(pos, j)] + lines_from(s, if j == s.len() { j } else { j + 1 })
    }
}

#[via_fn]
proof fn lines_from_decreases(s: Seq<char>, pos: int) {
    lemma_scan_to(s, pos, '\n');
}

/// The line that starts at `pos`: the text up to the next newline, or to
/// the end of the data if no newline remains.
pub open spec fn line_at(s: Seq<char>, pos: int) -> Seq<char> {
    s.subrange(pos, scan_to(s, pos, '\n'))
}

/// The cursor position after consuming the line that starts at `pos`:
/// one past the newline, or the end of the data if no newline remains.
pub open spec fn pos_after_line(s: Seq<char>, pos: int) -> int {
    let j = scan_to(s, pos, '\n');
    if j == s.len() {
        j
    } else {
        j + 1
    }
}

/// Text without a newline is one whole line, and consuming it reaches
/// the end of the data.
pub proof fn lemma_single_line(s: Seq<char>)
    requires
        forall|i: int| 0 <= i < s.len() ==> s[i] != '\n',
    ensures
        line_at(s, 0) == s,
        pos_after_line(s, 0) == s.len(),
{
    lemma_scan_to(s, 0, '\n');
    assert(s.subrange(0, s.len() as int) =~= s);
}

/// The character views of a sequence of strings.
pub open spec fn views_of(v: Seq<String>) -> Seq<Seq<char>> {
    Seq::new(v.len(), |i: int| v[i]@)
}

/// First occurrence of `target` in `s` at or after `from`, as executable
/// code: returns the length of `s` when there is none.
pub fn find_from(s: &str, from: usize, target: char) -> (r: usize)
    requires
        from <= s@.len(),
    ensures
        r == scan_to(s@, from as int, target),
{
    let len = s.unicode_len();
    let mut i: usize = from;
    while i < len && s.get_char(i) != target
        invariant
            from <= i <= len,
            len == s@.len(),
            scan_to(s@, from as int, target) == scan_to(s@, i as int, target),
        decreases len - i,
    {
        i = i + 1;
    }
    i
}

/// Whether `c` is trimmed from line ends, as executable code.
pub fn is_space_char(c: char) -> (r: bool)
    ensures
        r == is_space(c),
{
    c == ' ' || c == '\t' || c == '\n' || c == '\r' || c == '\x0b' || c == '\x0c'
}

/// A copy of `s` with whitespace removed from both ends.
pub fn trim_str(s: &str) -> (r: String)
    ensures
        r@ == trim(s@),
{
    let len = s.unicode_len();
    let mut a: usize = 0;
    while a < len && is_space_char(s.get_char(a))
        invariant
            0 <= a <= len,
            len == s@.len(),
            forall|k: int| 0 <= k < a ==> is_space(s@[k]),
        decreases len - a,
    {
        a = a + 1;
    }
    proof {
        lemma_trim_start_at(s@, a as int);
    }
    let mut b: usize = len;
    while b > a && is_space_char(s.get_char(b - 1))
        invariant
            a <= b <= len,
            len == s@.len(),
            forall|k: int| b <= k < len ==> is_space(s@[k]),
        decreases b,
    {
        b = b - 1;
    }
    let ghost head = s@.subrange(a as int, len as int);
    proof {
        assert(forall|k: int| b - a <= k < head.len() ==> is_space(head[k]));
        if b > a {
            assert(head[b - a - 1] == s@[b - 1]);
        }
        lemma_trim_end_at(head, b - a);
        assert(head.subrange(0, b - a) =~= s@.subrange(a as int, b as int));
    }
    let piece = s.substring_char(a, b);
    piece.to_owned()
}

/// The pieces of `s` cut at every single space character, left to right,
/// as owned strings.
pub fn split_spaces(s: &str) -> (r: Vec<String>)
    ensures
        views_of(r@) == space_split(s@),
{
    let len = s.unicode_len();
    let mut r: Vec<String> = Vec::new();
    let mut start: usize = 0;
    loop
        invariant_except_break
            0 <= start <= len,
            len == s@.len(),
            space_split(s@) =~= views_of(r@) + space_split_from(s@, start as int),
        ensures
            views_of(r@) =~= space_split(s@),
        decreases len - start,
    {
        let ghost pieces_before = views_of(r@);
        let j = find_from(s, start, ' ');
        proof {
            lemma_scan_to(s@, start as int, ' ');
        }
        let piece = s.substring_char(start, j).to_owned();
        r.push(piece);
        proof {
            assert(views_of(r@) =~= pieces_before + seq![s@.subrange(start as int, j as int)]);
        }
        if j == len {
            proof {
                assert(space_split_from(s@, start as int) == seq![
                    s@.subrange(start as int, len as int),
                ]);
                assert(views_of(r@) =~= space_split(s@));
            }
            break;
        }
        proof {
            assert(space_split_from(s@, start as int) == seq![s@.subrange(start as int, j as int)]
                + space_split_from(s@, j + 1));
            assert(space_split(s@) =~= views_of(r@) + space_split_from(s@, j + 1));
        }
        start = j + 1;
    }
    r
}

} // verus!
