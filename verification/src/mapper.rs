use vstd::prelude::*;
use crate::position::Position;
use crate::position::col_of;
use crate::position::line_of;

verus! {

/// One finding reported by the checking service for a submitted chunk.
/// `offset` and `length` are 0-based character counts into the chunk's
/// text.
pub struct Match {
    pub offset: usize,
    pub length: usize,
    pub message: String,
    pub rule_id: String,
    pub rule_description: String,
    pub replacements: Vec<String>,
    pub urls: Vec<String>,
}

/// A 1-based (line, column) pair in document coordinates.
#[derive(Clone, Copy, PartialEq, Eq, Structural, Debug)]
pub struct LineCol {
    pub line: usize,
    pub column: usize,
}

/// A half-open range `[start, end)` in document coordinates.
#[derive(Clone, Copy, PartialEq, Eq, Structural, Debug)]
pub struct Range {
    pub start: LineCol,
    pub end: LineCol,
}

/// A finding translated into document coordinates.
pub struct Diagnostic {
    pub range: Range,
    pub message: String,
}

/// A quick-fix: replace exactly `range` with `new_text`.
pub struct Action {
    pub title: String,
    pub range: Range,
    pub new_text: String,
}

impl Clone for Action {
    /// A full copy: same title, range and replacement text.
    fn clone(&self) -> (r: Self)
        ensures
            r == *self,
    {
        Action { title: self.title.clone(), range: self.range, new_text: self.new_text.clone() }
    }
}

/// One diagnostic together with its quick-fix actions.
pub struct DiagnosticEntry {
    pub diagnostic: Diagnostic,
    pub actions: Vec<Action>,
}

/// Why a checker response was rejected as a protocol violation.
#[derive(Clone, Copy, PartialEq, Eq, Structural, Debug)]
pub enum MapError {
    /// A match starts before the end of the previous one: out of order or
    /// overlapping. Mapping it would move the cursor backward.
    OutOfOrder,
    /// A match extends past the end of the chunk.
    Overrun,
}

/// Scan `ms` in order, with `prev_end` the end offset of the previous
/// match, and report the first protocol violation, if any: a match that
/// starts before the previous one ends, or one that overruns `total`.
pub open spec fn validate(ms: Seq<Match>, prev_end: int, total: int) -> Option<MapError>
    decreases ms.len(),
{
    if ms.len() == 0 {
        Option::None
    } else if (ms[0].offset as int) < prev_end {
        Option::Some(MapError::OutOfOrder)
    } else if ms[0].offset + ms[0].length > total {
        Option::Some(MapError::Overrun)
    } else {
        validate(ms.drop_first(), ms[0].offset + ms[0].length, total)
    }
}

/// A response is acceptable when its matches are sorted by ascending
/// offset, non-overlapping, and none extends past the chunk's end.
pub open spec fn matches_valid(ms: Seq<Match>, total: int) -> bool {
    validate(ms, 0, total) is None
}

/// `a` is the quick-fix action for `replacement` on range `r`.
pub open spec fn action_matches(a: Action, r: Range, replacement: String) -> bool {
    &&& a.range == r
    &&& a.new_text@ == replacement@
    &&& a.title@ == "Replace with '"@ + replacement@ + "'"@
}

/// `e` is the diagnostic entry for match `m` of a chunk that begins `c`
/// characters into `text`: its range runs from the position after
/// `c + m.offset` characters to the position after `c + m.offset +
/// m.length` characters, as found by counting newlines, and it carries
/// one replacement action per suggestion.
pub open spec fn entry_matches(e: DiagnosticEntry, text: Seq<char>, c: int, m: Match) -> bool {
    let s = c + m.offset;
    let t = c + m.offset + m.length;
    &&& e.diagnostic.range.start.line == line_of(text.take(s))
    &&& e.diagnostic.range.start.column == col_of(text.take(s))
    &&& e.diagnostic.range.end.line == line_of(text.take(t))
    &&& e.diagnostic.range.end.column == col_of(text.take(t))
    &&& e.diagnostic.message@ == m.message@
    &&& e.actions@.len() == m.replacements@.len()
    &&& forall|j: int|
        0 <= j < m.replacements@.len() ==> action_matches(
            #[trigger] e.actions@[j],
            e.diagnostic.range,
            m.replacements@[j],
        )
}

/// `es` maps `ms` entry for entry.
pub open spec fn mapped_entries(
    es: Seq<DiagnosticEntry>,
    text: Seq<char>,
    c: int,
    ms: Seq<Match>,
) -> bool {
    &&& es.len() == ms.len()
    &&& forall|i: int| 0 <= i < ms.len() ==> entry_matches(#[trigger] es[i], text, c, ms[i])
}

/// Translate one chunk's checker matches into diagnostics with quick-fix
/// actions, threading the document cursor. On success the cursor has
/// consumed exactly `total` more characters — the chunk's full length —
/// however many matches there were. A response whose matches are out of
/// order, overlapping, or overrunning the chunk is rejected with the
/// error for the first violation, and no entries are produced.
pub fn output_diagnostics(start: &mut Position, matches: &Vec<Match>, total: usize) -> (r: Result<
    Vec<DiagnosticEntry>,
    MapError,
>)
    requires
        old(start).wf(),
        total <= old(start).remaining(),
    ensures
        final(start).wf(),
        final(start).text_seq() == old(start).text_seq(),
        r is Ok <==> matches_valid(matches@, total as int),
        r is Ok ==> final(start).consumed() == old(start).consumed() + total,
        r is Ok ==> mapped_entries(
            r->Ok_0@,
            old(start).text_seq(),
            old(start).consumed(),
            matches@,
        ),
        r is Err ==> r->Err_0 == validate(matches@, 0, total as int)->Some_0,
        r is Err ==> old(start).consumed() <= final(start).consumed() <= old(start).consumed()
            + total,
{
    let ghost text = old(start).text_seq();
    let ghost c = old(start).consumed();
    let mut entries: Vec<DiagnosticEntry> = Vec::new();
    let mut last: usize = 0;
    let mut prev_end: usize = 0;
    let mut i: usize = 0;
    proof {
        assert(matches@.skip(0) =~= matches@);
    }
    while i < matches.len()
        invariant
            start.wf(),
            start.text_seq() == text,
            text == old(start).text_seq(),
            c == old(start).consumed(),
            total <= text.len() - c,
            i <= matches@.len(),
            last <= prev_end <= total,
            start.consumed() == c + last,
            validate(matches@.skip(i as int), prev_end as int, total as int) == validate(
                matches@,
                0,
                total as int,
            ),
            entries@.len() == i,
            forall|j: int|
                0 <= j < i ==> entry_matches(#[trigger] entries@[j], text, c, matches@[j]),
        decreases matches@.len() - i,
    {
        proof {
            assert(matches@.skip(i as int)[0] == matches@[i as int]);
            assert(matches@.skip(i as int).drop_first() =~= matches@.skip(i as int + 1));
        }
        let m = &matches[i];
        if m.offset < prev_end {
            return Result::Err(MapError::OutOfOrder);
        }
        if m.offset > total || m.length > total - m.offset {
            return Result::Err(MapError::Overrun);
        }
        start.advance(m.offset - last);
        let mut end = start.clone();
        end.advance(m.length);
        let range = Range {
            start: LineCol { line: start.line, column: start.column },
            end: LineCol { line: end.line, column: end.column },
        };
        let mut actions: Vec<Action> = Vec::new();
        let mut j: usize = 0;
        while j < m.replacements.len()
            invariant
                j <= m.replacements@.len(),
                actions@.len() == j,
                forall|k: int|
                    0 <= k < j ==> action_matches(
                        #[trigger] actions@[k],
                        range,
                        m.replacements@[k],
                    ),
            decreases m.replacements@.len() - j,
        {
            let rep = &m.replacements[j];
            let title = String::from_str("Replace with '").concat(rep.as_str()).concat("'");
            actions.push(Action { title, range, new_text: rep.clone() });
            j = j + 1;
        }
        entries.push(
            DiagnosticEntry {
                diagnostic: Diagnostic { range, message: m.message.clone() },
                actions,
            },
        );
        last = m.offset;
        prev_end = m.offset + m.length;
        i = i + 1;
    }
    proof {
        assert(matches@.skip(matches@.len() as int) =~= Seq::<Match>::empty());
    }
    start.advance(total - last);
    Result::Ok(entries)
}

/// Round-trip: for a single-match chunk beginning `c` characters into the
/// document, the produced diagnostic's start and end are exactly the
/// positions reached by counting newlines in the document prefixes of
/// `c + m.offset` and `c + m.offset + m.length` characters.
pub proof fn lemma_round_trip(es: Seq<DiagnosticEntry>, text: Seq<char>, c: int, m: Match)
    requires
        mapped_entries(es, text, c, seq![m]),
    ensures
        es.len() == 1,
        es[0].diagnostic.range.start.line == line_of(text.take(c + m.offset)),
        es[0].diagnostic.range.start.column == col_of(text.take(c + m.offset)),
        es[0].diagnostic.range.end.line == line_of(text.take(c + m.offset + m.length)),
        es[0].diagnostic.range.end.column == col_of(text.take(c + m.offset + m.length)),
        es[0].diagnostic.message@ == m.message@,
        es[0].actions@.len() == m.replacements@.len(),
{
    assert(seq![m][0] == m);
    assert(entry_matches(es[0], text, c, m));
}

} // verus!
