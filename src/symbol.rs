use vstd::prelude::*;

use vstd::multiset::Multiset;

use crate::span::Span;

verus! {

/// Identity of a symbol inside one index: its position in insertion order.
pub type SymbolId = usize;

#[derive(Clone, Copy, Debug, PartialEq, Eq, Structural)]
pub enum SymbolKind {
    Machine,
    Callable,
    Register,
    Definition,
    Public,
    Intermediate,
    TraitImpl,
}

/// A machine's declared size range; either bound may be absent.
#[derive(Clone, Copy, Debug, PartialEq, Eq, Structural)]
pub struct DegreeInfo {
    pub min: Option<u64>,
    pub max: Option<u64>,
}

#[derive(Debug)]
pub enum SymbolDetails {
    Machine { degree: Option<DegreeInfo> },
    Register { type_info: String },
    Callable { inputs: String, outputs: String },
    Definition,
    Public,
    Intermediate,
    TraitImpl,
}

/// One indexed occurrence of a named entity.
#[derive(Debug)]
pub struct Symbol {
    pub kind: SymbolKind,
    pub span: Span,
    pub name: String,
    pub details: SymbolDetails,
}

pub enum DetailsView {
    Machine { degree: Option<DegreeInfo> },
    Register { type_info: Seq<char> },
    Callable { inputs: Seq<char>, outputs: Seq<char> },
    Definition,
    Public,
    Intermediate,
    TraitImpl,
}

pub struct SymbolView {
    pub kind: SymbolKind,
    pub span: Span,
    pub name: Seq<char>,
    pub details: DetailsView,
}

impl View for SymbolDetails {
    type V = DetailsView;

    open spec fn view(&self) -> DetailsView {
        match self {
            SymbolDetails::Machine { degree } => DetailsView::Machine { degree: *degree },
            SymbolDetails::Register { type_info } => DetailsView::Register {
                type_info: type_info@,
            },
            SymbolDetails::Callable { inputs, outputs } => DetailsView::Callable {
                inputs: inputs@,
                outputs: outputs@,
            },
            SymbolDetails::Definition => DetailsView::Definition,
            SymbolDetails::Public => DetailsView::Public,
            SymbolDetails::Intermediate => DetailsView::Intermediate,
            SymbolDetails::TraitImpl => DetailsView::TraitImpl,
        }
    }
}

impl View for Symbol {
    type V = SymbolView;

    open spec fn view(&self) -> SymbolView {
        SymbolView { kind: self.kind, span: self.span, name: self.name@, details: self.details@ }
    }
}

/// Interval store over symbol spans, kept by `rust_lapper`.
#[verifier::external_body]
pub struct SpanTree {
    tree: rust_lapper::Lapper<usize, usize>,
}

/// The intervals `(start, stop, id)` that a `SpanTree` holds.
pub uninterp spec fn tree_intervals(t: SpanTree) -> Multiset<(usize, usize, usize)>;

/// Relies on `Lapper::new`: built from no intervals, the tree holds none.
#[verifier::external_body]
fn span_tree_new() -> (r: SpanTree)
    ensures
        tree_intervals(r) =~= Multiset::empty(),
{
    SpanTree { tree: rust_lapper::Lapper::new(Vec::new()) }
}

/// Relies on `Lapper::insert`: the interval is added and the others stay.
#[verifier::external_body]
fn span_tree_insert(t: &mut SpanTree, start: usize, stop: usize, val: usize)
    ensures
        tree_intervals(*final(t)) =~= tree_intervals(*old(t)).insert((start, stop, val)),
{
    t.tree.insert(rust_lapper::Interval { start, stop, val })
}

/// Relies on `Lapper::find`: it yields the intervals that overlap
/// `[start, stop)` in the tree's order, by start and then by stop; the first
/// one is returned.
#[verifier::external_body]
fn span_tree_first_overlap(t: &SpanTree, start: usize, stop: usize) -> (r: Option<
    (usize, usize, usize),
>)
    ensures
        r is None <==> (forall|x: (usize, usize, usize)|
            tree_intervals(*t).contains(x) ==> !(x.0 < stop && x.1 > start)),
        r matches Some(x) ==> {
            &&& tree_intervals(*t).contains(x)
            &&& x.0 < stop && x.1 > start
            &&& forall|y: (usize, usize, usize)|
                tree_intervals(*t).contains(y) && y.0 < stop && y.1 > start ==> (x.0 < y.0 || (x.0
                    == y.0 && x.1 <= y.1))
        },
{
    t.tree.find(start, stop).next().map(|iv| (iv.start, iv.stop, iv.val))
}

/// The interval entries that the symbols `s` stand for, each tagged with its id.
pub open spec fn intervals_of(s: Seq<Symbol>) -> Multiset<(usize, usize, usize)>
    decreases s.len(),
{
    if s.len() == 0 {
        Multiset::empty()
    } else {
        let k = s.len() - 1;
        intervals_of(s.drop_last()).insert((s[k].span.start, s[k].span.end, k as usize))
    }
}

proof fn lemma_intervals_of(s: Seq<Symbol>, x: (usize, usize, usize))
    requires
        s.len() <= usize::MAX,
    ensures
        intervals_of(s).contains(x) <==> (0 <= x.2 < s.len() && x.0 == s[x.2 as int].span.start
            && x.1 == s[x.2 as int].span.end),
    decreases s.len(),
{
    if s.len() > 0 {
        lemma_intervals_of(s.drop_last(), x);
    }
}

/// Earliest in (start, end) order among spans that contain an offset.
pub open spec fn first_in_order(a: Span, b: Span) -> bool {
    a.start < b.start || (a.start == b.start && a.end <= b.end)
}

/// The per-document index: symbols by id, and their spans in an interval tree.
pub struct SemanticIndex {
    symbols: Vec<Symbol>,
    range_index: SpanTree,
}

impl View for SemanticIndex {
    type V = Seq<SymbolView>;

    closed spec fn view(&self) -> Seq<SymbolView> {
        self.symbols@.map_values(|s: Symbol| s@)
    }
}

impl SemanticIndex {
    /// The tree holds exactly one interval per symbol, tagged with its id.
    pub closed spec fn wf(&self) -> bool {
        tree_intervals(self.range_index) == intervals_of(self.symbols@)
    }

    pub fn new() -> (r: Self)
        ensures
            r.wf(),
            r@ == Seq::<SymbolView>::empty(),
    {
        let r = SemanticIndex { symbols: Vec::new(), range_index: span_tree_new() };
        assert(r@ =~= Seq::<SymbolView>::empty());
        r
    }

    /// Appends a symbol under the next id, which is returned.
    pub fn add_symbol(&mut self, symbol: Symbol) -> (r: SymbolId)
        requires
            old(self).wf(),
        ensures
            final(self).wf(),
            final(self)@ == old(self)@.push(symbol@),
            r == old(self)@.len(),
    {
        let id = self.symbols.len();
        span_tree_insert(&mut self.range_index, symbol.span.start, symbol.span.end, id);
        let ghost before = self.symbols@;
        self.symbols.push(symbol);
        assert(self.symbols@.drop_last() =~= before);
        assert(self@ =~= old(self)@.push(symbol@));
        id
    }

    /// The symbol whose span contains `offset`, if any; among several, the one
    /// whose span comes first by start and then by end.
    pub fn find_symbol_at_position(&self, offset: usize) -> (r: Option<&Symbol>)
        requires
            self.wf(),
        ensures
            r is None <==> (forall|k: int| 0 <= k < self@.len() ==> !self@[k].span.contains(offset as int)),
            r matches Some(s) ==> {
                &&& s@.span.contains(offset as int)
                &&& exists|k: int| 0 <= k < self@.len() && self@[k] == s@
                &&& forall|j: int|
                    0 <= j < self@.len() && self@[j].span.contains(offset as int) ==> first_in_order(
                        s@.span,
                        self@[j].span,
                    )
            },
    {
        if offset == usize::MAX {
            return None;
        }
        let found = span_tree_first_overlap(&self.range_index, offset, offset + 1);
        let n = self.symbols.len();
        proof {
            assert forall|k: int| 0 <= k < self@.len() implies #[trigger] self@[k].span
                == self.symbols@[k].span by {}
            assert forall|k: int| 0 <= k < self.symbols@.len() implies tree_intervals(
                self.range_index,
            ).contains(
                (self.symbols@[k].span.start, self.symbols@[k].span.end, k as usize),
            ) by {
                lemma_intervals_of(
                    self.symbols@,
                    (self.symbols@[k].span.start, self.symbols@[k].span.end, k as usize),
                );
            }
        }
        match found {
            None => {
                proof {
                    assert forall|k: int| 0 <= k < self@.len() implies !self@[k].span.contains(
                        offset as int,
                    ) by {
                        let y = (self.symbols@[k].span.start, self.symbols@[k].span.end, k as usize);
                        assert(tree_intervals(self.range_index).contains(y));
                    }
                }
                None
            },
            Some(x) => {
                proof {
                    lemma_intervals_of(self.symbols@, x);
                    assert(self@[x.2 as int] == self.symbols@[x.2 as int]@);
                    assert forall|j: int|
                        0 <= j < self@.len() && self@[j].span.contains(
                            offset as int,
                        ) implies first_in_order(self.symbols@[x.2 as int].span, self@[j].span) by {
                        let y = (self.symbols@[j].span.start, self.symbols@[j].span.end, j as usize);
                        assert(tree_intervals(self.range_index).contains(y));
                    }
                }
                Some(&self.symbols[x.2])
            },
        }
    }

    /// Every symbol with its span, in id order.
    pub fn get_all_ranges(&self) -> (r: Vec<(Span, &Symbol)>)
        ensures
            r@.len() == self@.len(),
            forall|k: int| 0 <= k < r@.len() ==> r@[k].0 == self@[k].span && r@[k].1@ == self@[k],
    {
        let mut r: Vec<(Span, &Symbol)> = Vec::new();
        let mut i: usize = 0;
        while i < self.symbols.len()
            invariant
                i <= self.symbols@.len(),
                r@.len() == i,
                forall|k: int| 0 <= k < i ==> r@[k].0 == self@[k].span && r@[k].1@ == self@[k],
            decreases self.symbols@.len() - i,
        {
            let s = &self.symbols[i];
            r.push((s.span, s));
            i = i + 1;
        }
        r
    }
}

} // verus!
