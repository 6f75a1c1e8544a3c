use vstd::prelude::*;

verus! {

/// The kinds of syntax nodes that segmentation distinguishes. A parsed
/// document tree is handed to the segmenter with each node classified as
/// one of these.
#[derive(Clone, Copy, PartialEq, Eq, Structural, Debug)]
pub enum NodeKind {
    /// Ordinary prose text.
    Text,
    /// Whitespace between words.
    Space,
    /// A paragraph break.
    Parbreak,
    /// Markup delimiters: emphasis markers, heading markers and the like.
    Delimiter,
    /// Raw or code content.
    Raw,
    /// Mathematical content.
    Math,
    /// Any other structural node.
    Other,
}

/// How the checking service should treat a text unit.
#[derive(Clone, Copy, PartialEq, Eq, Structural, Debug)]
pub enum UnitKind {
    /// Checkable prose.
    Text,
    /// Markup: its characters count toward offsets but carry no prose.
    Markup,
}

/// What the rule set says to do with nodes of a given kind.
#[derive(Clone, Copy, PartialEq, Eq, Structural, Debug)]
pub enum Decision {
    /// The node's text is checkable prose.
    Include,
    /// The node's text, and everything below it, is counted but not checked.
    Exclude,
}

/// A span of document text together with the way the checker should treat
/// it.
pub struct TextUnit {
    pub kind: UnitKind,
    pub text: String,
}

/// An ordered group of text units destined for one checker request.
/// `total_length` is the number of characters the chunk consumes from the
/// document's character stream.
pub struct Chunk {
    pub units: Vec<TextUnit>,
    pub total_length: usize,
}

/// A node of the parsed document tree: its kind, the text it carries
/// itself, and its children in document order.
pub struct Node {
    pub kind: NodeKind,
    pub text: String,
    pub children: Vec<Node>,
}

/// All characters of the document at or below `n`, in document order:
/// the node's own text followed by its children's.
pub open spec fn node_chars(n: Node) -> Seq<char>
    decreases n, 0int,
{
    n.text@ + children_chars_upto(n.children@, n.children@.len() as int)
}

/// The characters of the first `k` nodes of `cs`, in order.
pub open spec fn children_chars_upto(cs: Seq<Node>, k: int) -> Seq<char>
    decreases cs, k,
{
    if k <= 0 || k > cs.len() {
        Seq::empty()
    } else {
        children_chars_upto(cs, k - 1) + node_chars(cs[k - 1])
    }
}

pub open spec fn unit_kind_of(d: Decision) -> UnitKind {
    match d {
        Decision::Include => UnitKind::Text,
        Decision::Exclude => UnitKind::Markup,
    }
}

/// First decision recorded for `kind` in `list`, if any.
pub open spec fn decision_in(list: Seq<(NodeKind, Decision)>, kind: NodeKind) -> Option<
    Decision,
>
    decreases list.len(),
{
    if list.len() == 0 {
        Option::None
    } else if list[0].0 == kind {
        Option::Some(list[0].1)
    } else {
        decision_in(list.drop_first(), kind)
    }
}

/// Built-in decision for each node kind: delimiters, raw and mathematical
/// content are counted but not checked; everything else — prose, spacing,
/// and structural nodes whose children may hold prose — is checked.
pub open spec fn default_decision(kind: NodeKind) -> Decision {
    match kind {
        NodeKind::Delimiter => Decision::Exclude,
        NodeKind::Raw => Decision::Exclude,
        NodeKind::Math => Decision::Exclude,
        _ => Decision::Include,
    }
}

/// The rule set that drives segmentation: per-kind overrides on top of the
/// built-in decisions.
pub struct Rules {
    pub overrides: Vec<(NodeKind, Decision)>,
}

impl Rules {
    /// The decision this rule set takes for nodes of `kind`.
    pub open spec fn decision(self, kind: NodeKind) -> Decision {
        match decision_in(self.overrides@, kind) {
            Option::Some(d) => d,
            Option::None => default_decision(kind),
        }
    }

    /// The built-in rule set, with no overrides.
    pub fn new() -> (r: Rules)
        ensures
            r.overrides@.len() == 0,
            forall|kind: NodeKind| r.decision(kind) == default_decision(kind),
    {
        Rules { overrides: Vec::new() }
    }

    /// Record that nodes of `kind` are to be treated as `d`, overriding the
    /// built-in decision and any earlier override for that kind.
    pub fn override_kind(&mut self, kind: NodeKind, d: Decision)
        ensures
            final(self).decision(kind) == d,
            forall|other: NodeKind| other != kind ==> final(self).decision(other) == old(
                self,
            ).decision(other),
    {
        self.overrides.insert(0, (kind, d));
        proof {
            assert(self.overrides@.drop_first() =~= old(self).overrides@);
        }
    }

    /// Look the decision for `kind` up.
    pub fn decide(&self, kind: NodeKind) -> (d: Decision)
        ensures
            d == self.decision(kind),
    {
        proof {
            assert(self.overrides@.skip(0) =~= self.overrides@);
        }
        let mut i: usize = 0;
        while i < self.overrides.len()
            invariant
                i <= self.overrides@.len(),
                decision_in(self.overrides@.skip(i as int), kind) == decision_in(
                    self.overrides@,
                    kind,
                ),
            decreases self.overrides@.len() - i,
        {
            proof {
                assert(self.overrides@.skip(i as int)[0] == self.overrides@[i as int]);
                assert(self.overrides@.skip(i as int).drop_first() =~= self.overrides@.skip(
                    i as int + 1,
                ));
            }
            if self.overrides[i].0 == kind {
                return self.overrides[i].1;
            }
            i = i + 1;
        }
        proof {
            assert(self.overrides@.skip(self.overrides@.len() as int) =~= Seq::<(
                NodeKind,
                Decision,
            )>::empty());
        }
        match kind {
            NodeKind::Delimiter => Decision::Exclude,
            NodeKind::Raw => Decision::Exclude,
            NodeKind::Math => Decision::Exclude,
            _ => Decision::Include,
        }
    }
}

/// The text units that segmentation produces for the subtree at `n`:
/// the node's own text as one unit (checkable or markup as the rules
/// decide), followed by its children's units. Below an excluded node
/// everything is markup, so no prose escapes an excluded region.
pub open spec fn node_units(n: Node, rules: Rules, excluded: bool) -> Seq<TextUnit>
    decreases n, 0int,
{
    let d = if excluded {
        Decision::Exclude
    } else {
        rules.decision(n.kind)
    };
    let own = if n.text@.len() == 0 {
        Seq::<TextUnit>::empty()
    } else {
        seq![TextUnit { kind: unit_kind_of(d), text: n.text }]
    };
    own + children_units_upto(n.children@, rules, d == Decision::Exclude, n.children@.len() as int)
}

/// The units of the first `k` nodes of `cs`, in order.
pub open spec fn children_units_upto(
    cs: Seq<Node>,
    rules: Rules,
    excluded: bool,
    k: int,
) -> Seq<TextUnit>
    decreases cs, k,
{
    if k <= 0 || k > cs.len() {
        Seq::empty()
    } else {
        children_units_upto(cs, rules, excluded, k - 1) + node_units(cs[k - 1], rules, excluded)
    }
}

/// The characters a sequence of units covers, in order.
pub open spec fn units_chars(us: Seq<TextUnit>) -> Seq<char>
    decreases us.len(),
{
    if us.len() == 0 {
        Seq::empty()
    } else {
        us[0].text@ + units_chars(us.drop_first())
    }
}

pub proof fn lemma_units_chars_concat(a: Seq<TextUnit>, b: Seq<TextUnit>)
    ensures
        units_chars(a + b) == units_chars(a) + units_chars(b),
    decreases a.len(),
{
    if a.len() == 0 {
        assert(a + b =~= b);
        assert(units_chars(a) + units_chars(b) =~= units_chars(b));
    } else {
        assert((a + b).drop_first() =~= a.drop_first() + b);
        assert((a + b)[0] == a[0]);
        lemma_units_chars_concat(a.drop_first(), b);
        assert(units_chars(a + b) =~= units_chars(a) + units_chars(b));
    }
}

pub proof fn lemma_units_chars_push(us: Seq<TextUnit>, u: TextUnit)
    ensures
        units_chars(us.push(u)) == units_chars(us) + u.text@,
{
    assert(us.push(u) =~= us + seq![u]);
    lemma_units_chars_concat(us, seq![u]);
    assert(seq![u][0] == u);
    assert(seq![u].drop_first() =~= Seq::<TextUnit>::empty());
    assert(units_chars(Seq::<TextUnit>::empty()) == Seq::<char>::empty());
    assert(units_chars(seq![u]) == u.text@ + units_chars(seq![u].drop_first()));
    assert(units_chars(seq![u]) =~= u.text@);
}

/// Segmentation loses no characters: the units produced for a subtree
/// cover exactly the subtree's characters, in order.
pub proof fn lemma_node_units_chars(n: Node, rules: Rules, excluded: bool)
    ensures
        units_chars(node_units(n, rules, excluded)) == node_chars(n),
    decreases n, 0int,
{
    let d = if excluded {
        Decision::Exclude
    } else {
        rules.decision(n.kind)
    };
    let own = if n.text@.len() == 0 {
        Seq::<TextUnit>::empty()
    } else {
        seq![TextUnit { kind: unit_kind_of(d), text: n.text }]
    };
    let cu = children_units_upto(
        n.children@,
        rules,
        d == Decision::Exclude,
        n.children@.len() as int,
    );
    lemma_units_chars_concat(own, cu);
    lemma_children_units_chars(
        n.children@,
        rules,
        d == Decision::Exclude,
        n.children@.len() as int,
    );
    if n.text@.len() == 0 {
        assert(units_chars(own) =~= Seq::<char>::empty());
        assert(units_chars(own) + units_chars(cu) =~= units_chars(cu));
        assert(n.text@ + children_chars_upto(n.children@, n.children@.len() as int)
            =~= children_chars_upto(n.children@, n.children@.len() as int));
    } else {
        assert(own[0] == TextUnit { kind: unit_kind_of(d), text: n.text });
        assert(own.drop_first() =~= Seq::<TextUnit>::empty());
        assert(units_chars(Seq::<TextUnit>::empty()) == Seq::<char>::empty());
        assert(units_chars(own) == own[0].text@ + units_chars(own.drop_first()));
        assert(units_chars(own) =~= n.text@);
    }
}

pub proof fn lemma_children_units_chars(cs: Seq<Node>, rules: Rules, excluded: bool, k: int)
    ensures
        units_chars(children_units_upto(cs, rules, excluded, k)) == children_chars_upto(cs, k),
    decreases cs, k,
{
    if 0 < k <= cs.len() {
        lemma_children_units_chars(cs, rules, excluded, k - 1);
        lemma_node_units_chars(cs[k - 1], rules, excluded);
        lemma_units_chars_concat(
            children_units_upto(cs, rules, excluded, k - 1),
            node_units(cs[k - 1], rules, excluded),
        );
    }
}

/// Walk the subtree at `n` in document order and append its text units to
/// `out`.
pub fn collect_units(n: &Node, rules: &Rules, excluded: bool, out: &mut Vec<TextUnit>)
    ensures
        final(out)@ == old(out)@ + node_units(*n, *rules, excluded),
    decreases *n, 0int,
{
    let d = if excluded {
        Decision::Exclude
    } else {
        rules.decide(n.kind)
    };
    let ghost own = if n.text@.len() == 0 {
        Seq::<TextUnit>::empty()
    } else {
        seq![TextUnit { kind: unit_kind_of(d), text: n.text }]
    };
    if n.text.unicode_len() > 0 {
        let k = match d {
            Decision::Include => UnitKind::Text,
            Decision::Exclude => UnitKind::Markup,
        };
        out.push(TextUnit { kind: k, text: n.text.clone() });
        proof {
            assert(out@ =~= old(out)@ + own);
        }
    } else {
        proof {
            assert(out@ =~= old(out)@ + own);
        }
    }
    let excl = d == Decision::Exclude;
    let mut j: usize = 0;
    while j < n.children.len()
        invariant
            j <= n.children@.len(),
            excl == (d == Decision::Exclude),
            own == (if n.text@.len() == 0 {
                Seq::<TextUnit>::empty()
            } else {
                seq![TextUnit { kind: unit_kind_of(d), text: n.text }]
            }),
            out@ == old(out)@ + own + children_units_upto(n.children@, *rules, excl, j as int),
        decreases n.children@.len() - j,
    {
        collect_units(&n.children[j], rules, excl, out);
        j = j + 1;
        proof {
            assert(out@ =~= old(out)@ + own + children_units_upto(
                n.children@,
                *rules,
                excl,
                j as int,
            ));
        }
    }
    proof {
        assert(out@ =~= old(out)@ + node_units(*n, *rules, excluded));
    }
}

/// The units of a sequence of chunks, in order.
pub open spec fn chunks_units(cs: Seq<Chunk>) -> Seq<TextUnit>
    decreases cs.len(),
{
    if cs.len() == 0 {
        Seq::empty()
    } else {
        cs[0].units@ + chunks_units(cs.drop_first())
    }
}

/// The sum of `total_length` over a sequence of chunks.
pub open spec fn sum_totals(cs: Seq<Chunk>) -> int
    decreases cs.len(),
{
    if cs.len() == 0 {
        0
    } else {
        cs[0].total_length + sum_totals(cs.drop_first())
    }
}

/// A chunk is well-formed when it is nonempty and its `total_length` is
/// exactly the number of characters its units cover.
pub open spec fn chunk_wf(c: Chunk) -> bool {
    &&& c.units@.len() > 0
    &&& c.total_length == units_chars(c.units@).len()
}

pub proof fn lemma_chunks_units_push(cs: Seq<Chunk>, c: Chunk)
    ensures
        chunks_units(cs.push(c)) == chunks_units(cs) + c.units@,
        sum_totals(cs.push(c)) == sum_totals(cs) + c.total_length,
    decreases cs.len(),
{
    if cs.len() == 0 {
        assert(cs.push(c)[0] == c);
        assert(cs.push(c).drop_first() =~= Seq::<Chunk>::empty());
        assert(chunks_units(Seq::<Chunk>::empty()) == Seq::<TextUnit>::empty());
        assert(sum_totals(Seq::<Chunk>::empty()) == 0);
        assert(chunks_units(cs.push(c)) =~= chunks_units(cs) + c.units@);
    } else {
        assert(cs.push(c).drop_first() =~= cs.drop_first().push(c));
        lemma_chunks_units_push(cs.drop_first(), c);
        assert(chunks_units(cs.push(c)) =~= chunks_units(cs) + c.units@);
    }
}

/// Group `units` in order into chunks of at most `budget` characters; a
/// single unit longer than the budget is emitted alone in its own chunk.
/// The packing is greedy: a chunk is closed only when adding the next
/// unit would push it over the budget, so each chunk but the last is
/// full.
#[verifier::rlimit(50)]
pub fn pack_units(units: Vec<TextUnit>, budget: usize) -> (chunks: Vec<Chunk>)
    requires
        units_chars(units@).len() <= usize::MAX,
    ensures
        chunks_units(chunks@) == units@,
        sum_totals(chunks@) == units_chars(units@).len(),
        forall|i: int| 0 <= i < chunks@.len() ==> chunk_wf(#[trigger] chunks@[i]),
        forall|i: int|
            0 <= i < chunks@.len() ==> ((#[trigger] chunks@[i]).total_length <= budget
                || chunks@[i].units@.len() == 1),
        forall|i: int|
            0 <= i && i + 1 < chunks@.len() ==> (#[trigger] chunks@[i]).total_length
                + chunks@[i + 1].units@[0].text@.len() > budget,
{
    let ghost orig = units@;
    let mut units = units;
    let mut chunks: Vec<Chunk> = Vec::new();
    let mut cur: Vec<TextUnit> = Vec::new();
    let mut cur_len: usize = 0;
    while units.len() > 0
        invariant
            chunks_units(chunks@) + cur@ + units@ == orig,
            sum_totals(chunks@) + cur_len + units_chars(units@).len() == units_chars(orig).len(),
            cur_len + units_chars(units@).len() <= usize::MAX,
            cur_len == units_chars(cur@).len(),
            cur@.len() > 1 ==> cur_len <= budget,
            chunks@.len() > 0 ==> cur@.len() > 0,
            forall|i: int| 0 <= i < chunks@.len() ==> chunk_wf(#[trigger] chunks@[i]),
            forall|i: int|
                0 <= i < chunks@.len() ==> ((#[trigger] chunks@[i]).total_length <= budget
                    || chunks@[i].units@.len() == 1),
            forall|i: int|
                0 <= i && i + 1 < chunks@.len() ==> (#[trigger] chunks@[i]).total_length
                    + chunks@[i + 1].units@[0].text@.len() > budget,
            chunks@.len() > 0 && cur@.len() > 0 ==> chunks@.last().total_length
                + cur@[0].text@.len() > budget,
        decreases units@.len(),
    {
        let ghost before = units@;
        let u = units.remove(0);
        proof {
            assert(before.drop_first() =~= before.remove(0));
            assert(units_chars(before) == u.text@ + units_chars(units@));
        }
        let u_len = u.text.unicode_len();
        if cur.len() > 0 && (cur_len > budget || u_len > budget - cur_len) {
            let closed = Chunk { units: cur, total_length: cur_len };
            proof {
                lemma_chunks_units_push(chunks@, closed);
            }
            chunks.push(closed);
            cur = Vec::new();
            cur_len = 0;
        }
        proof {
            lemma_units_chars_push(cur@, u);
        }
        cur.push(u);
        cur_len = cur_len + u_len;
        proof {
            assert(chunks_units(chunks@) + cur@ + units@ =~= orig);
        }
    }
    proof {
        assert(units_chars(units@) =~= Seq::<char>::empty());
    }
    if cur.len() > 0 {
        let closed = Chunk { units: cur, total_length: cur_len };
        proof {
            lemma_chunks_units_push(chunks@, closed);
        }
        chunks.push(closed);
    }
    proof {
        assert(chunks_units(chunks@) =~= orig);
    }
    chunks
}

/// The chunk's full text, its units concatenated in order: what one
/// checker request submits, and what the chunk's match offsets index
/// into.
pub fn chunk_text(c: &Chunk) -> (s: String)
    ensures
        s@ == units_chars(c.units@),
{
    let mut s = String::new();
    let mut i: usize = 0;
    proof {
        assert(c.units@.take(0) =~= Seq::<TextUnit>::empty());
    }
    while i < c.units.len()
        invariant
            i <= c.units@.len(),
            s@ == units_chars(c.units@.take(i as int)),
        decreases c.units@.len() - i,
    {
        proof {
            assert(c.units@.take(i as int + 1) =~= c.units@.take(i as int).push(
                c.units@[i as int],
            ));
            lemma_units_chars_push(c.units@.take(i as int), c.units@[i as int]);
        }
        s.append(c.units[i].text.as_str());
        i = i + 1;
    }
    proof {
        assert(c.units@.take(c.units@.len() as int) =~= c.units@);
    }
    s
}

/// Turn a parsed document tree into ordered, bounded chunks of text
/// units. The chunks cover, in order, exactly the units segmentation
/// assigns to the tree, and the sum of their `total_length` is exactly
/// the document's character count, so a cursor advanced chunk by chunk
/// ends at the end of the document.
pub fn segment(root: &Node, rules: &Rules, budget: usize) -> (chunks: Vec<Chunk>)
    requires
        node_chars(*root).len() <= usize::MAX,
    ensures
        chunks_units(chunks@) == node_units(*root, *rules, false),
        sum_totals(chunks@) == node_chars(*root).len(),
        forall|i: int| 0 <= i < chunks@.len() ==> chunk_wf(#[trigger] chunks@[i]),
        forall|i: int|
            0 <= i < chunks@.len() ==> ((#[trigger] chunks@[i]).total_length <= budget
                || chunks@[i].units@.len() == 1),
        forall|i: int|
            0 <= i && i + 1 < chunks@.len() ==> (#[trigger] chunks@[i]).total_length
                + chunks@[i + 1].units@[0].text@.len() > budget,
{
    let mut units: Vec<TextUnit> = Vec::new();
    collect_units(root, rules, false, &mut units);
    proof {
        lemma_node_units_chars(*root, *rules, false);
        assert(units@ =~= node_units(*root, *rules, false));
    }
    pack_units(units, budget)
}

} // verus!
