use vstd::prelude::*;
use vstd::pervasive::VecAdditionalExecFns;
use crate::mapper::Action;
use crate::mapper::DiagnosticEntry;
use crate::mapper::LineCol;
use crate::mapper::Range;

verus! {

/// `a` is at or before `b` in document order.
pub open spec fn point_le(a: LineCol, b: LineCol) -> bool {
    a.line < b.line || (a.line == b.line && a.column <= b.column)
}

/// `a` is strictly before `b` in document order.
pub open spec fn point_lt(a: LineCol, b: LineCol) -> bool {
    a.line < b.line || (a.line == b.line && a.column < b.column)
}

/// Half-open containment: `p` lies in `[r.start, r.end)`.
pub open spec fn range_contains(r: Range, p: LineCol) -> bool {
    point_le(r.start, p) && point_lt(p, r.end)
}

/// Whether `p` lies in the half-open range `[r.start, r.end)`.
pub fn covers(r: Range, p: LineCol) -> (b: bool)
    ensures
        b == range_contains(r, p),
{
    (r.start.line < p.line || (r.start.line == p.line && r.start.column <= p.column)) && (p.line
        < r.end.line || (p.line == r.end.line && p.column < r.end.column))
}

/// The actions of the first `k` entries whose diagnostic range contains
/// `p`, in stored order.
pub open spec fn covering_upto(es: Seq<DiagnosticEntry>, p: LineCol, k: int) -> Seq<Action>
    decreases k,
{
    if k <= 0 || k > es.len() {
        Seq::empty()
    } else {
        covering_upto(es, p, k - 1) + if range_contains(es[k - 1].diagnostic.range, p) {
            es[k - 1].actions@
        } else {
            Seq::empty()
        }
    }
}

/// The union, in stored order, of the actions of every entry whose
/// diagnostic range contains `p`.
pub open spec fn covering_actions(es: Seq<DiagnosticEntry>, p: LineCol) -> Seq<Action> {
    covering_upto(es, p, es.len() as int)
}

/// The association the stored pairs describe; a later pair for the same
/// identifier wins.
pub open spec fn store_map(s: Seq<(u64, Vec<DiagnosticEntry>)>) -> Map<u64, Seq<DiagnosticEntry>>
    decreases s.len(),
{
    if s.len() == 0 {
        Map::empty()
    } else {
        store_map(s.drop_last()).insert(s.last().0, s.last().1@)
    }
}

/// Per-document storage of the latest computed diagnostics and their
/// quick-fix actions. Each `put` replaces a document's list in full.
pub struct DiagnosticsStore {
    pub docs: Vec<(u64, Vec<DiagnosticEntry>)>,
}

impl View for DiagnosticsStore {
    type V = Map<u64, Seq<DiagnosticEntry>>;

    open spec fn view(&self) -> Self::V {
        store_map(self.docs@)
    }
}

pub proof fn lemma_store_map_found(s: Seq<(u64, Vec<DiagnosticEntry>)>, i: int)
    requires
        forall|a: int, b: int| 0 <= a < b < s.len() ==> s[a].0 != s[b].0,
        0 <= i < s.len(),
    ensures
        store_map(s).contains_key(s[i].0),
        store_map(s)[s[i].0] == s[i].1@,
    decreases s.len(),
{
    if i < s.len() - 1 {
        assert(s.drop_last()[i] == s[i]);
        lemma_store_map_found(s.drop_last(), i);
    }
}

pub proof fn lemma_store_map_missing(s: Seq<(u64, Vec<DiagnosticEntry>)>, id: u64)
    requires
        forall|a: int| 0 <= a < s.len() ==> s[a].0 != id,
    ensures
        !store_map(s).contains_key(id),
    decreases s.len(),
{
    if s.len() > 0 {
        lemma_store_map_missing(s.drop_last(), id);
    }
}

pub proof fn lemma_store_map_update(
    s: Seq<(u64, Vec<DiagnosticEntry>)>,
    i: int,
    v: Vec<DiagnosticEntry>,
)
    requires
        forall|a: int, b: int| 0 <= a < b < s.len() ==> s[a].0 != s[b].0,
        0 <= i < s.len(),
    ensures
        store_map(s.update(i, (s[i].0, v))) == store_map(s).insert(s[i].0, v@),
    decreases s.len(),
{
    let id = s[i].0;
    let t = s.update(i, (id, v));
    if i == s.len() - 1 {
        assert(t.drop_last() =~= s.drop_last());
        assert(t.last() == (id, v));
        assert(store_map(t) == store_map(s.drop_last()).insert(id, v@));
        assert(store_map(s.drop_last()).insert(s.last().0, s.last().1@).insert(id, v@)
            =~= store_map(s.drop_last()).insert(id, v@));
    } else {
        assert(t.drop_last() =~= s.drop_last().update(i, (id, v)));
        assert(s.drop_last()[i] == s[i]);
        lemma_store_map_update(s.drop_last(), i, v);
        assert(t.last() == s.last());
        assert(s.last().0 != id);
        assert(store_map(s.drop_last()).insert(id, v@).insert(s.last().0, s.last().1@)
            =~= store_map(s.drop_last()).insert(s.last().0, s.last().1@).insert(id, v@));
    }
}

impl DiagnosticsStore {
    /// No two stored pairs carry the same document identifier.
    pub open spec fn wf(&self) -> bool {
        forall|a: int, b: int|
            0 <= a < b < self.docs@.len() ==> self.docs@[a].0 != self.docs@[b].0
    }

    /// An empty store.
    pub fn new() -> (s: DiagnosticsStore)
        ensures
            s.wf(),
            s@ == Map::<u64, Seq<DiagnosticEntry>>::empty(),
    {
        DiagnosticsStore { docs: Vec::new() }
    }

    /// The index holding `id`, if any.
    fn find(&self, id: u64) -> (r: Option<usize>)
        ensures
            match r {
                Option::Some(i) => i < self.docs@.len() && self.docs@[i as int].0 == id,
                Option::None => forall|j: int|
                    0 <= j < self.docs@.len() ==> self.docs@[j].0 != id,
            },
    {
        let mut i: usize = 0;
        while i < self.docs.len()
            invariant
                i <= self.docs@.len(),
                forall|j: int| 0 <= j < i ==> self.docs@[j].0 != id,
            decreases self.docs@.len() - i,
        {
            if self.docs[i].0 == id {
                return Option::Some(i);
            }
            i = i + 1;
        }
        Option::None
    }

    /// Replace the stored list for `id` in full (or store a first one).
    pub fn put(&mut self, id: u64, entries: Vec<DiagnosticEntry>)
        requires
            old(self).wf(),
        ensures
            final(self).wf(),
            final(self)@ == old(self)@.insert(id, entries@),
    {
        match self.find(id) {
            Option::Some(i) => {
                proof {
                    lemma_store_map_update(self.docs@, i as int, entries);
                }
                self.docs.set(i, (id, entries));
            },
            Option::None => {
                self.docs.push((id, entries));
                proof {
                    assert(self.docs@.drop_last() =~= old(self).docs@);
                    assert(self.docs@.last() == (id, entries));
                }
            },
        }
    }

    /// The full stored list for `id`, for publishing; `None` when the
    /// document is unknown.
    pub fn all(&self, id: u64) -> (r: Option<&Vec<DiagnosticEntry>>)
        requires
            self.wf(),
        ensures
            match r {
                Option::Some(v) => self@.contains_key(id) && v@ == self@[id],
                Option::None => !self@.contains_key(id),
            },
    {
        match self.find(id) {
            Option::Some(i) => {
                proof {
                    lemma_store_map_found(self.docs@, i as int);
                }
                Option::Some(&self.docs[i].1)
            },
            Option::None => {
                proof {
                    lemma_store_map_missing(self.docs@, id);
                }
                Option::None
            },
        }
    }

    /// The union of the actions of every diagnostic stored for `id` whose
    /// range contains `point`, in stored order; empty — not an error —
    /// when the document is unknown.
    pub fn actions_covering(&self, id: u64, point: LineCol) -> (r: Vec<Action>)
        requires
            self.wf(),
        ensures
            self@.contains_key(id) ==> r@ == covering_actions(self@[id], point),
            !self@.contains_key(id) ==> r@.len() == 0,
    {
        let mut out: Vec<Action> = Vec::new();
        match self.find(id) {
            Option::None => {
                proof {
                    lemma_store_map_missing(self.docs@, id);
                }
                out
            },
            Option::Some(i) => {
                proof {
                    lemma_store_map_found(self.docs@, i as int);
                }
                let entries = &self.docs[i].1;
                let mut k: usize = 0;
                while k < entries.len()
                    invariant
                        k <= entries@.len(),
                        out@ == covering_upto(entries@, point, k as int),
                    decreases entries@.len() - k,
                {
                    let e = &entries[k];
                    if covers(e.diagnostic.range, point) {
                        let mut a: usize = 0;
                        while a < e.actions.len()
                            invariant
                                a <= e.actions@.len(),
                                out@ == covering_upto(entries@, point, k as int)
                                    + e.actions@.take(a as int),
                                k < entries@.len(),
                                e == entries@[k as int],
                                range_contains(e.diagnostic.range, point),
                            decreases e.actions@.len() - a,
                        {
                            out.push(e.actions[a].clone());
                            a = a + 1;
                            proof {
                                assert(e.actions@.take(a as int) =~= e.actions@.take(
                                    a as int - 1,
                                ).push(e.actions@[a as int - 1]));
                                assert(out@ =~= covering_upto(entries@, point, k as int)
                                    + e.actions@.take(a as int));
                            }
                        }
                        proof {
                            assert(e.actions@.take(e.actions@.len() as int) =~= e.actions@);
                        }
                    } else {
                        proof {
                            assert(out@ =~= covering_upto(entries@, point, k as int)
                                + Seq::<Action>::empty());
                        }
                    }
                    k = k + 1;
                    proof {
                        assert(out@ =~= covering_upto(entries@, point, k as int));
                    }
                }
                out
            },
        }
    }
}

} // verus!
