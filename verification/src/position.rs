use vstd::prelude::*;

verus! {

/// 1-based line number reached after consuming exactly the characters of `s`:
/// one plus the number of newline characters consumed.
pub open spec fn line_of(s: Seq<char>) -> int
    decreases s.len(),
{
    if s.len() == 0 {
        1
    } else {
        line_of(s.drop_last()) + if s.last() == '\n' {
            1int
        } else {
            0int
        }
    }
}

/// 1-based column number reached after consuming exactly the characters of
/// `s`: it resets to 1 on a newline and grows by one on any other character.
pub open spec fn col_of(s: Seq<char>) -> int
    decreases s.len(),
{
    if s.len() == 0 {
        1
    } else if s.last() == '\n' {
        1
    } else {
        col_of(s.drop_last()) + 1
    }
}

pub proof fn lemma_line_col_bounds(s: Seq<char>)
    ensures
        1 <= line_of(s) <= s.len() + 1,
        1 <= col_of(s) <= s.len() + 1,
    decreases s.len(),
{
    if s.len() > 0 {
        lemma_line_col_bounds(s.drop_last());
    }
}

/// Consuming one more character moves the line and column by exactly one
/// step: the line grows by one and the column resets to 1 if the character
/// is a newline, and only then; otherwise the column grows by one.
pub proof fn lemma_advance_one(s: Seq<char>, i: int)
    requires
        0 <= i < s.len(),
    ensures
        line_of(s.take(i + 1)) == line_of(s.take(i)) + if s[i] == '\n' {
            1int
        } else {
            0int
        },
        col_of(s.take(i + 1)) == if s[i] == '\n' {
            1int
        } else {
            col_of(s.take(i)) + 1
        },
        (col_of(s.take(i + 1)) == 1) <==> (s[i] == '\n'),
{
    assert(s.take(i + 1).drop_last() =~= s.take(i));
    assert(s.take(i + 1).last() == s[i]);
    lemma_line_col_bounds(s.take(i));
}

/// The line number is monotone in the number of consumed characters: a
/// cursor that only moves forward never sees its line number decrease.
pub proof fn lemma_line_monotone(s: Seq<char>, i: int, j: int)
    requires
        0 <= i <= j <= s.len(),
    ensures
        line_of(s.take(i)) <= line_of(s.take(j)),
    decreases j - i,
{
    if i < j {
        lemma_advance_one(s, j - 1);
        lemma_line_monotone(s, i, j - 1);
    }
}

/// Chunk-boundary continuity: a cursor that consumes two adjacent chunks
/// of lengths `t1` and `t2` one after the other ends exactly where a
/// cursor over the same document ends after consuming their concatenation
/// as a single chunk of length `t1 + t2`, whatever the split point. Both
/// `advance` and the mapper pin the consumed count, and the consumed
/// count alone determines line and column.
pub proof fn lemma_chunk_boundary_continuity(
    split: Position,
    whole: Position,
    c: int,
    t1: int,
    t2: int,
)
    requires
        split.wf(),
        whole.wf(),
        split.text_seq() == whole.text_seq(),
        split.consumed() == (c + t1) + t2,
        whole.consumed() == c + (t1 + t2),
    ensures
        split.line == whole.line,
        split.column == whole.column,
{
}

/// A cursor over a document's character stream. `line` and `column` are
/// 1-based and describe the point just past the consumed prefix of the
/// stream.
pub struct Position {
    pub line: usize,
    pub column: usize,
    pub text: Vec<char>,
    pub idx: usize,
}

impl Position {
    /// The full character stream the cursor walks over.
    pub open spec fn text_seq(&self) -> Seq<char> {
        self.text@
    }

    /// How many characters have been consumed so far.
    pub open spec fn consumed(&self) -> int {
        self.idx as int
    }

    /// How many characters are still available to `advance` over.
    pub open spec fn remaining(&self) -> int {
        self.text_seq().len() - self.consumed()
    }

    /// The cursor's line and column agree with the consumed prefix.
    pub open spec fn wf(&self) -> bool {
        &&& 0 <= self.consumed() <= self.text_seq().len()
        &&& self.text_seq().len() < usize::MAX
        &&& self.line == line_of(self.text_seq().take(self.consumed()))
        &&& self.column == col_of(self.text_seq().take(self.consumed()))
    }

    /// A fresh cursor at line 1, column 1, with the whole of `content`
    /// still to be consumed.
    pub fn new(content: &str) -> (p: Position)
        requires
            content@.len() < usize::MAX,
        ensures
            p.wf(),
            p.text_seq() == content@,
            p.consumed() == 0,
            p.line == 1,
            p.column == 1,
    {
        let n = content.unicode_len();
        let mut text: Vec<char> = Vec::new();
        let mut i: usize = 0;
        while i < n
            invariant
                n == content@.len(),
                i <= n,
                text@ == content@.take(i as int),
            decreases n - i,
        {
            text.push(content.get_char(i));
            i = i + 1;
            proof {
                assert(text@ =~= content@.take(i as int));
            }
        }
        proof {
            assert(text@ =~= content@);
            assert(content@.take(0) =~= Seq::<char>::empty());
        }
        Position { line: 1, column: 1, text, idx: 0 }
    }

    /// Consume exactly `amount` characters and update (line, column)
    /// accordingly. The caller must guarantee that the stream still holds
    /// that many characters; a shortfall is a segmentation bug, not a
    /// runtime condition this cursor recovers from.
    pub fn advance(&mut self, amount: usize)
        requires
            old(self).wf(),
            amount <= old(self).remaining(),
        ensures
            final(self).wf(),
            final(self).text_seq() == old(self).text_seq(),
            final(self).consumed() == old(self).consumed() + amount,
            final(self).line == line_of(
                old(self).text_seq().take(old(self).consumed() + amount),
            ),
            final(self).column == col_of(
                old(self).text_seq().take(old(self).consumed() + amount),
            ),
            final(self).line >= old(self).line,
    {
        let mut i: usize = 0;
        while i < amount
            invariant
                old(self).wf(),
                amount <= old(self).remaining(),
                self.wf(),
                self.text_seq() == old(self).text_seq(),
                i <= amount,
                self.consumed() == old(self).consumed() + i,
            decreases amount - i,
        {
            proof {
                lemma_advance_one(self.text@, self.idx as int);
                lemma_line_col_bounds(self.text@.take(self.idx as int));
            }
            let c = self.text[self.idx];
            if c == '\n' {
                self.line = self.line + 1;
                self.column = 1;
            } else {
                self.column = self.column + 1;
            }
            self.idx = self.idx + 1;
            i = i + 1;
        }
        proof {
            lemma_line_monotone(
                self.text@,
                old(self).consumed(),
                old(self).consumed() + amount as int,
            );
        }
    }
}

impl Clone for Position {
    /// An independent snapshot of the cursor: same stream, same consumed
    /// prefix, same line and column; advancing the snapshot does not
    /// disturb the original.
    fn clone(&self) -> (r: Self)
        ensures
            r.line == self.line,
            r.column == self.column,
            r.text_seq() == self.text_seq(),
            r.consumed() == self.consumed(),
    {
        let mut text: Vec<char> = Vec::new();
        let mut i: usize = 0;
        while i < self.text.len()
            invariant
                i <= self.text.len(),
                text@ == self.text@.take(i as int),
            decreases self.text.len() - i,
        {
            text.push(self.text[i]);
            i = i + 1;
            proof {
                assert(text@ =~= self.text@.take(i as int));
            }
        }
        proof {
            assert(text@ =~= self.text@);
        }
        Position { line: self.line, column: self.column, text, idx: self.idx }
    }
}

} // verus!
