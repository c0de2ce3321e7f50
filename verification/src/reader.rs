//! The buffered line/token reader: owns the whole input as one text
//! buffer, keeps a cursor, and hands out lines, tokens and decoded values.

use vstd::prelude::*;

use crate::decode::FastParse;
use crate::decode::int_text_of;
use crate::decode::is_int_text;
use crate::decode::int_text_val;
use crate::decode::lemma_decimal_round_trip;
use crate::decode::lemma_int_text_plain;
use crate::text::is_space;
use crate::text::line_at;
use crate::text::lines_from;
use crate::text::pos_after_line;
use crate::text::space_split;
use crate::text::split_spaces;
use crate::text::trim;
use crate::text::trim_str;
use crate::text::views_of;
use crate::text::find_from;
use crate::text::lemma_scan_to;
use crate::text::lemma_space_split_len;
use crate::text::scan_to;

verus! {

/// Reads and parses known-correct, line- and space-delimited input.
///
/// The whole input is handed over at construction; the reader never
/// touches any source afterwards. A cursor marks how much has been
/// consumed; it only moves forward. Each line-consuming accessor requires
/// that input remains (`has_next_line`), and its contract pins down both
/// the text it returns and where the cursor lands.
pub struct FastInput {
    /// The whole input, owned, immutable after construction.
    pub data: String,
    /// How many characters of `data` have been consumed.
    pub pos: usize,
}

impl FastInput {
    /// The cursor never passes the end of the input.
    pub open spec fn wf(self) -> bool {
        self.pos <= self.data@.len()
    }

    /// Whether unconsumed input remains.
    pub open spec fn spec_has_more(self) -> bool {
        self.pos != self.data@.len()
    }

    /// The line that starts at the cursor.
    pub open spec fn spec_line(self) -> Seq<char> {
        line_at(self.data@, self.pos as int)
    }

    /// The tokens of the line that starts at the cursor: the line trimmed
    /// of surrounding whitespace, then cut at every single space.
    pub open spec fn spec_tokens(self) -> Seq<Seq<char>> {
        space_split(trim(self.spec_line()))
    }

    /// Where the cursor lands after consuming the line it points at.
    pub open spec fn spec_pos_after(self) -> int {
        pos_after_line(self.data@, self.pos as int)
    }

    /// Whether `next` is `self` with the line at the cursor consumed.
    pub open spec fn advanced(self, next: FastInput) -> bool {
        next.data@ == self.data@ && next.pos as int == self.spec_pos_after()
    }

    /// Creates a reader over input that was already read to completion.
    pub fn with_reader(input: &str) -> (r: FastInput)
        ensures
            r.wf(),
            r.data@ == input@,
            r.pos == 0,
    {
        FastInput { data: input.to_owned(), pos: 0 }
    }

    /// Checks whether unconsumed input remains. A reader constructed over
    /// empty input is exhausted from the start; once exhausted, a reader
    /// stays exhausted.
    pub fn has_next_line(&self) -> (r: bool)
        ensures
            r == self.spec_has_more(),
    {
        self.pos != self.data.as_str().unicode_len()
    }

    /// Position of the next newline at or after the cursor, if any.
    fn next_newline(&self) -> (r: Option<usize>)
        requires
            self.wf(),
        ensures
            match r {
                Some(j) => j as int == scan_to(self.data@, self.pos as int, '\n') && j
                    < self.data@.len(),
                None => scan_to(self.data@, self.pos as int, '\n') == self.data@.len(),
            },
    {
        proof {
            lemma_scan_to(self.data@, self.pos as int, '\n');
        }
        let j = find_from(self.data.as_str(), self.pos, '\n');
        if j < self.data.as_str().unicode_len() {
            Some(j)
        } else {
            None
        }
    }

    /// Reads the next line and advances the cursor past it: up to the
    /// next newline (consumed, not returned), or to the end of the data
    /// if no newline remains.
    pub fn next_line(&mut self) -> (r: String)
        requires
            old(self).wf(),
            old(self).spec_has_more(),
        ensures
            final(self).wf(),
            r@ == old(self).spec_line(),
            old(self).advanced(*final(self)),
    {
        proof {
            lemma_scan_to(self.data@, self.pos as int, '\n');
        }
        let len = self.data.as_str().unicode_len();
        match self.next_newline() {
            Some(j) => {
                let piece = self.data.as_str().substring_char(self.pos, j);
                let r = piece.to_owned();
                self.pos = j + 1;
                r
            },
            None => {
                let piece = self.data.as_str().substring_char(self.pos, len);
                let r = piece.to_owned();
                self.pos = len;
                r
            },
        }
    }

    /// Reads the next line and returns its tokens: the line trimmed of
    /// surrounding whitespace, then cut at every single space, left to
    /// right. Consecutive spaces yield empty tokens between them.
    pub fn next_split(&mut self) -> (r: Vec<String>)
        requires
            old(self).wf(),
            old(self).spec_has_more(),
        ensures
            final(self).wf(),
            views_of(r@) == old(self).spec_tokens(),
            r@.len() >= 1,
            old(self).advanced(*final(self)),
    {
        let line = self.next_line();
        let trimmed = trim_str(line.as_str());
        let r = split_spaces(trimmed.as_str());
        proof {
            lemma_space_split_len(trimmed@, 0);
        }
        r
    }

    /// Reads the next line and decodes each of its tokens.
    pub fn next_as_iter<T: FastParse>(&mut self) -> (r: Vec<T>)
        requires
            old(self).wf(),
            old(self).spec_has_more(),
            forall|i: int|
                0 <= i < old(self).spec_tokens().len() ==> T::parses(
                    #[trigger] old(self).spec_tokens()[i],
                ),
        ensures
            final(self).wf(),
            r@.len() == old(self).spec_tokens().len(),
            forall|i: int|
                0 <= i < r@.len() ==> T::decoded(old(self).spec_tokens()[i], #[trigger] r@[i]),
            old(self).advanced(*final(self)),
    {
        let ghost tokens = old(self).spec_tokens();
        let toks = self.next_split();
        let mut out: Vec<T> = Vec::new();
        let mut i: usize = 0;
        while i < toks.len()
            invariant
                0 <= i <= toks@.len(),
                views_of(toks@) == tokens,
                forall|k: int| 0 <= k < tokens.len() ==> T::parses(#[trigger] tokens[k]),
                out@.len() == i,
                forall|k: int| 0 <= k < i ==> T::decoded(tokens[k], #[trigger] out@[k]),
            decreases toks@.len() - i,
        {
            proof {
                assert(toks@[i as int]@ == tokens[i as int]);
            }
            let v = T::fparse(toks[i].as_str());
            out.push(v);
            i = i + 1;
        }
        out
    }

    /// Reads the next line and decodes its first token. The line always
    /// yields at least one token; an empty or all-whitespace line yields
    /// one empty token, which decodes only for types that accept it.
    pub fn next<T: FastParse>(&mut self) -> (r: T)
        requires
            old(self).wf(),
            old(self).spec_has_more(),
            T::parses(old(self).spec_tokens()[0]),
        ensures
            final(self).wf(),
            T::decoded(old(self).spec_tokens()[0], r),
            old(self).advanced(*final(self)),
    {
        let toks = self.next_split();
        T::fparse(toks[0].as_str())
    }

    /// Reads one line of at least two tokens and decodes the first two
    /// positionally; tokens beyond the second are ignored.
    pub fn next_tuple<T1: FastParse, T2: FastParse>(&mut self) -> (r: (T1, T2))
        requires
            old(self).wf(),
            old(self).spec_has_more(),
            old(self).spec_tokens().len() >= 2,
            T1::parses(old(self).spec_tokens()[0]),
            T2::parses(old(self).spec_tokens()[1]),
        ensures
            final(self).wf(),
            T1::decoded(old(self).spec_tokens()[0], r.0),
            T2::decoded(old(self).spec_tokens()[1], r.1),
            old(self).advanced(*final(self)),
    {
        let toks = self.next_split();
        let a = T1::fparse(toks[0].as_str());
        let b = T2::fparse(toks[1].as_str());
        (a, b)
    }

    /// Reads one line of at least three tokens and decodes the first
    /// three positionally; tokens beyond the third are ignored.
    pub fn next_triple<T1: FastParse, T2: FastParse, T3: FastParse>(&mut self) -> (r: (
        T1,
        T2,
        T3,
    ))
        requires
            old(self).wf(),
            old(self).spec_has_more(),
            old(self).spec_tokens().len() >= 3,
            T1::parses(old(self).spec_tokens()[0]),
            T2::parses(old(self).spec_tokens()[1]),
            T3::parses(old(self).spec_tokens()[2]),
        ensures
            final(self).wf(),
            T1::decoded(old(self).spec_tokens()[0], r.0),
            T2::decoded(old(self).spec_tokens()[1], r.1),
            T3::decoded(old(self).spec_tokens()[2], r.2),
            old(self).advanced(*final(self)),
    {
        let toks = self.next_split();
        let a = T1::fparse(toks[0].as_str());
        let b = T2::fparse(toks[1].as_str());
        let c = T3::fparse(toks[2].as_str());
        (a, b, c)
    }

    /// Reads one line of at least four tokens and decodes the first four
    /// positionally; tokens beyond the fourth are ignored.
    pub fn next_quad<T1: FastParse, T2: FastParse, T3: FastParse, T4: FastParse>(
        &mut self,
    ) -> (r: (T1, T2, T3, T4))
        requires
            old(self).wf(),
            old(self).spec_has_more(),
            old(self).spec_tokens().len() >= 4,
            T1::parses(old(self).spec_tokens()[0]),
            T2::parses(old(self).spec_tokens()[1]),
            T3::parses(old(self).spec_tokens()[2]),
            T4::parses(old(self).spec_tokens()[3]),
        ensures
            final(self).wf(),
            T1::decoded(old(self).spec_tokens()[0], r.0),
            T2::decoded(old(self).spec_tokens()[1], r.1),
            T3::decoded(old(self).spec_tokens()[2], r.2),
            T4::decoded(old(self).spec_tokens()[3], r.3),
            old(self).advanced(*final(self)),
    {
        let toks = self.next_split();
        let a = T1::fparse(toks[0].as_str());
        let b = T2::fparse(toks[1].as_str());
        let c = T3::fparse(toks[2].as_str());
        let d = T4::fparse(toks[3].as_str());
        (a, b, c, d)
    }

    /// Reads one line of at least five tokens and decodes the first five
    /// positionally; tokens beyond the fifth are ignored.
    pub fn next_quintuple<
        T1: FastParse,
        T2: FastParse,
        T3: FastParse,
        T4: FastParse,
        T5: FastParse,
    >(
        &mut self,
    ) -> (r: (T1, T2, T3, T4, T5))
        requires
            old(self).wf(),
            old(self).spec_has_more(),
            old(self).spec_tokens().len() >= 5,
            T1::parses(old(self).spec_tokens()[0]),
            T2::parses(old(self).spec_tokens()[1]),
            T3::parses(old(self).spec_tokens()[2]),
            T4::parses(old(self).spec_tokens()[3]),
            T5::parses(old(self).spec_tokens()[4]),
        ensures
            final(self).wf(),
            T1::decoded(old(self).spec_tokens()[0], r.0),
            T2::decoded(old(self).spec_tokens()[1], r.1),
            T3::decoded(old(self).spec_tokens()[2], r.2),
            T4::decoded(old(self).spec_tokens()[3], r.3),
            T5::decoded(old(self).spec_tokens()[4], r.4),
            old(self).advanced(*final(self)),
    {
        let toks = self.next_split();
        let a = T1::fparse(toks[0].as_str());
        let b = T2::fparse(toks[1].as_str());
        let c = T3::fparse(toks[2].as_str());
        let d = T4::fparse(toks[3].as_str());
        let e = T5::fparse(toks[4].as_str());
        (a, b, c, d, e)
    }

    /// Reads one line of at least two tokens and returns the first two
    /// as text.
    pub fn next_str_tuple(&mut self) -> (r: (String, String))
        requires
            old(self).wf(),
            old(self).spec_has_more(),
            old(self).spec_tokens().len() >= 2,
        ensures
            final(self).wf(),
            r.0@ == old(self).spec_tokens()[0],
            r.1@ == old(self).spec_tokens()[1],
            old(self).advanced(*final(self)),
    {
        let toks = self.next_split();
        let a = toks[0].clone();
        let b = toks[1].clone();
        (a, b)
    }

    /// Reads one line of at least three tokens and returns the first
    /// three as text.
    pub fn next_str_triple(&mut self) -> (r: (String, String, String))
        requires
            old(self).wf(),
            old(self).spec_has_more(),
            old(self).spec_tokens().len() >= 3,
        ensures
            final(self).wf(),
            r.0@ == old(self).spec_tokens()[0],
            r.1@ == old(self).spec_tokens()[1],
            r.2@ == old(self).spec_tokens()[2],
            old(self).advanced(*final(self)),
    {
        let toks = self.next_split();
        let a = toks[0].clone();
        let b = toks[1].clone();
        let c = toks[2].clone();
        (a, b, c)
    }

    /// Reads every remaining line in order and leaves the reader
    /// exhausted: afterwards `has_next_line` is false and stays false.
    pub fn lines(&mut self) -> (r: Vec<String>)
        requires
            old(self).wf(),
        ensures
            final(self).wf(),
            views_of(r@) == lines_from(old(self).data@, old(self).pos as int),
            final(self).data@ == old(self).data@,
            final(self).pos == final(self).data@.len(),
            !final(self).spec_has_more(),
    {
        let mut r: Vec<String> = Vec::new();
        while self.has_next_line()
            invariant
                self.wf(),
                self.data@ == old(self).data@,
                lines_from(old(self).data@, old(self).pos as int) =~= views_of(r@) + lines_from(
                    self.data@,
                    self.pos as int,
                ),
            decreases self.data@.len() - self.pos,
        {
            let ghost lines_before = views_of(r@);
            let ghost pos_before = self.pos as int;
            let line = self.next_line();
            r.push(line);
            proof {
                assert(views_of(r@) =~= lines_before + seq![line_at(self.data@, pos_before)]);
                lemma_scan_to(self.data@, pos_before, '\n');
            }
        }
        proof {
            assert(lines_from(self.data@, self.pos as int) =~= Seq::<Seq<char>>::empty());
            assert(views_of(r@) =~= lines_from(old(self).data@, old(self).pos as int));
        }
        r
    }
}

/// Reading all remaining lines is one `next_line` after another: while
/// input remains, the remaining lines are the line at the cursor
/// followed by the lines left after consuming it.
pub proof fn lemma_lines_unfold(r: FastInput, next: FastInput)
    requires
        r.wf(),
        r.spec_has_more(),
        r.advanced(next),
    ensures
        lines_from(r.data@, r.pos as int) == seq![r.spec_line()] + lines_from(
            next.data@,
            next.pos as int,
        ),
{
    lemma_scan_to(r.data@, r.pos as int, '\n');
}

/// The cursor only moves forward: while input remains, consuming a line
/// advances it strictly, and never past the end of the data. Once the
/// end is reached no line-consuming operation applies any more, so an
/// exhausted reader stays exhausted.
pub proof fn lemma_cursor_monotone(r: FastInput, next: FastInput)
    requires
        r.wf(),
        r.spec_has_more(),
        r.advanced(next),
    ensures
        r.pos < next.pos,
        next.wf(),
{
    lemma_scan_to(r.data@, r.pos as int, '\n');
}

/// A reader over an input of zero characters is exhausted immediately
/// after construction.
pub proof fn lemma_empty_input_exhausted(r: FastInput)
    requires
        r.wf(),
        r.data@.len() == 0,
    ensures
        !r.spec_has_more(),
{
}

/// A reader over one line with no trailing newline: the first line read
/// returns the entire content, and the reader is exhausted afterwards.
pub proof fn lemma_single_line_input(r: FastInput)
    requires
        r.pos == 0,
        r.data@.len() > 0,
        forall|i: int| 0 <= i < r.data@.len() ==> r.data@[i] != '\n',
    ensures
        r.spec_has_more(),
        r.spec_line() == r.data@,
        r.spec_pos_after() == r.data@.len(),
        forall|next: FastInput| r.advanced(next) ==> !next.spec_has_more(),
{
    crate::text::lemma_single_line(r.data@);
}

/// A reader over newline-free text with no whitespace at either end:
/// its first tokens are exactly the text cut at every single space,
/// order and empty tokens included.
pub proof fn lemma_split_matches_input(r: FastInput)
    requires
        r.pos == 0,
        forall|i: int| 0 <= i < r.data@.len() ==> r.data@[i] != '\n',
        r.data@.len() > 0 ==> !is_space(r.data@[0]) && !is_space(r.data@.last()),
    ensures
        r.spec_tokens() == space_split(r.data@),
{
    crate::text::lemma_single_line(r.data@);
    crate::text::lemma_trim_identity(r.data@);
}

/// Decimal round trip, seen from the reader: an input holding exactly
/// the decimal text of an integer is one line of one token, and that
/// token decodes back to the integer exactly.
pub proof fn lemma_decimal_input_round_trip(r: FastInput, n: int)
    requires
        r.pos == 0,
        r.data@ == int_text_of(n),
    ensures
        r.spec_has_more(),
        r.spec_tokens() =~= seq![int_text_of(n)],
        is_int_text(int_text_of(n)),
        int_text_val(int_text_of(n)) == n,
{
    lemma_decimal_round_trip(n);
    lemma_int_text_plain(n);
    lemma_split_matches_input(r);
    crate::text::lemma_space_split_whole(r.data@);
}

} // verus!
