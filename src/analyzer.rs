use vstd::prelude::*;

use vstd::string::StringSliceAdditionalSpecFns;
use vstd::utf8::encode_utf8;

use crate::locator::{
    lemma_occurrences_valid, occurrences, span_of_name, valid_occurrence, PositionTracker,
};
use crate::parser::{AnalyzedDoc, AsmFile, CallableDecl, MachineDecl, PilFile, RegisterDecl};
use crate::span::Span;
use crate::symbol::{DetailsView, SemanticIndex, Symbol, SymbolDetails, SymbolKind, SymbolView};

verus! {

/// One symbol per valid occurrence of `name` in `t`, all of one kind and detail.
pub open spec fn name_symbols(t: Seq<u8>, name: Seq<char>, kind: SymbolKind, d: DetailsView) -> Seq<
    SymbolView,
> {
    occurrences(t, encode_utf8(name), 0).map_values(
        |sp: Span| SymbolView { kind, span: sp, name, details: d },
    )
}

/// Parameter names joined by `", "`.
pub open spec fn join_params(ps: Seq<String>) -> Seq<char>
    decreases ps.len(),
{
    if ps.len() == 0 {
        seq![]
    } else if ps.len() == 1 {
        ps[0]@
    } else {
        join_params(ps.drop_last()) + seq![',', ' '] + ps.last()@
    }
}

pub open spec fn callable_details(c: CallableDecl) -> DetailsView {
    DetailsView::Callable { inputs: join_params(c.inputs@), outputs: join_params(c.outputs@) }
}

pub open spec fn callables_symbols(t: Seq<u8>, cs: Seq<CallableDecl>) -> Seq<SymbolView>
    decreases cs.len(),
{
    if cs.len() == 0 {
        seq![]
    } else {
        let c = cs.last();
        callables_symbols(t, cs.drop_last()) + name_symbols(
            t,
            c.name@,
            SymbolKind::Callable,
            callable_details(c),
        )
    }
}

pub open spec fn registers_symbols(t: Seq<u8>, rs: Seq<RegisterDecl>) -> Seq<SymbolView>
    decreases rs.len(),
{
    if rs.len() == 0 {
        seq![]
    } else {
        let r = rs.last();
        registers_symbols(t, rs.drop_last()) + name_symbols(
            t,
            r.name@,
            SymbolKind::Register,
            DetailsView::Register { type_info: r.ty@ },
        )
    }
}

/// A machine yields symbols for its qualified name, its short name, its
/// callables and its registers, in that order.
pub open spec fn machine_symbols(t: Seq<u8>, m: MachineDecl) -> Seq<SymbolView> {
    let d = DetailsView::Machine { degree: m.degree };
    name_symbols(t, m.path@, SymbolKind::Machine, d) + name_symbols(
        t,
        m.short_name@,
        SymbolKind::Machine,
        d,
    ) + callables_symbols(t, m.callables@) + registers_symbols(t, m.registers@)
}

pub open spec fn machines_symbols(t: Seq<u8>, ms: Seq<MachineDecl>) -> Seq<SymbolView>
    decreases ms.len(),
{
    if ms.len() == 0 {
        seq![]
    } else {
        machines_symbols(t, ms.drop_last()) + machine_symbols(t, ms.last())
    }
}

pub open spec fn names_symbols(t: Seq<u8>, ns: Seq<String>, kind: SymbolKind, d: DetailsView) -> Seq<
    SymbolView,
>
    decreases ns.len(),
{
    if ns.len() == 0 {
        seq![]
    } else {
        names_symbols(t, ns.drop_last(), kind, d) + name_symbols(t, ns.last()@, kind, d)
    }
}

pub open spec fn pil_symbols(t: Seq<u8>, p: PilFile) -> Seq<SymbolView> {
    names_symbols(t, p.definitions@, SymbolKind::Definition, DetailsView::Definition)
        + names_symbols(t, p.public_declarations@, SymbolKind::Public, DetailsView::Public)
        + names_symbols(t, p.intermediate_columns@, SymbolKind::Intermediate, DetailsView::Intermediate)
        + names_symbols(t, p.trait_impls@, SymbolKind::TraitImpl, DetailsView::TraitImpl)
}

/// The symbols, in id order, that indexing `doc` against the text `t` yields.
pub open spec fn doc_symbols(t: Seq<u8>, doc: AnalyzedDoc) -> Seq<SymbolView> {
    match doc {
        AnalyzedDoc::ASM(a) => machines_symbols(t, a.machines@),
        AnalyzedDoc::PIL(p) => pil_symbols(t, p),
    }
}

fn copy_details(d: &SymbolDetails) -> (r: SymbolDetails)
    ensures
        r@ == d@,
{
    match d {
        SymbolDetails::Machine { degree } => SymbolDetails::Machine { degree: *degree },
        SymbolDetails::Register { type_info } => SymbolDetails::Register {
            type_info: type_info.clone(),
        },
        SymbolDetails::Callable { inputs, outputs } => SymbolDetails::Callable {
            inputs: inputs.clone(),
            outputs: outputs.clone(),
        },
        SymbolDetails::Definition => SymbolDetails::Definition,
        SymbolDetails::Public => SymbolDetails::Public,
        SymbolDetails::Intermediate => SymbolDetails::Intermediate,
        SymbolDetails::TraitImpl => SymbolDetails::TraitImpl,
    }
}

/// Adds one symbol for each valid occurrence of `name`.
fn index_name(
    index: &mut SemanticIndex,
    tracker: &mut PositionTracker,
    name: &String,
    kind: SymbolKind,
    details: &SymbolDetails,
)
    requires
        old(index).wf(),
        old(tracker).current_pos == 0,
    ensures
        final(index).wf(),
        *final(tracker) == *old(tracker),
        final(index)@ == old(index)@ + name_symbols(
            old(tracker).text.spec_bytes(),
            name@,
            kind,
            details@,
        ),
{
    let spans = tracker.find_symbol_positions(name.as_str());
    let ghost t = tracker.text.spec_bytes();
    let ghost target = name_symbols(t, name@, kind, details@);
    assert(spans@.len() == target.len());
    let mut i: usize = 0;
    while i < spans.len()
        invariant
            index.wf(),
            i <= spans@.len(),
            spans@ == occurrences(t, encode_utf8(name@), 0),
            target == name_symbols(t, name@, kind, details@),
            target.len() == spans@.len(),
            index@ == old(index)@ + target.subrange(0, i as int),
        decreases spans@.len() - i,
    {
        let sym = Symbol {
            kind,
            span: spans[i],
            name: name.clone(),
            details: copy_details(details),
        };
        index.add_symbol(sym);
        assert(target.subrange(0, i + 1) =~= target.subrange(0, i as int).push(target[i as int]));
        assert(index@ =~= old(index)@ + target.subrange(0, i + 1));
        i = i + 1;
    }
    assert(target.subrange(0, i as int) =~= target);
}

fn join_strings(ps: &Vec<String>) -> (r: String)
    ensures
        r@ == join_params(ps@),
{
    let mut r = String::new();
    let mut i: usize = 0;
    let sep = ", ";
    proof {
        reveal_strlit(", ");
    }
    assert(sep@ =~= seq![',', ' ']);
    while i < ps.len()
        invariant
            i <= ps@.len(),
            r@ == join_params(ps@.subrange(0, i as int)),
            sep@ == seq![',', ' '],
        decreases ps@.len() - i,
    {
        assert(ps@.subrange(0, i + 1).drop_last() =~= ps@.subrange(0, i as int));
        if i > 0 {
            r.append(sep);
        } else {
            assert(r@ =~= seq![]);
        }
        r.append(ps[i].as_str());
        i = i + 1;
    }
    assert(ps@.subrange(0, i as int) =~= ps@);
    r
}

fn analyze_callables(
    cs: &Vec<CallableDecl>,
    index: &mut SemanticIndex,
    tracker: &mut PositionTracker,
)
    requires
        old(index).wf(),
        old(tracker).current_pos == 0,
    ensures
        final(index).wf(),
        *final(tracker) == *old(tracker),
        final(index)@ == old(index)@ + callables_symbols(old(tracker).text.spec_bytes(), cs@),
{
    let ghost t = tracker.text.spec_bytes();
    let mut i: usize = 0;
    while i < cs.len()
        invariant
            index.wf(),
            i <= cs@.len(),
            *tracker == *old(tracker),
            tracker.current_pos == 0,
            t == old(tracker).text.spec_bytes(),
            index@ == old(index)@ + callables_symbols(t, cs@.subrange(0, i as int)),
        decreases cs@.len() - i,
    {
        let c = &cs[i];
        let details = SymbolDetails::Callable {
            inputs: join_strings(&c.inputs),
            outputs: join_strings(&c.outputs),
        };
        index_name(index, tracker, &c.name, SymbolKind::Callable, &details);
        assert(cs@.subrange(0, i + 1).drop_last() =~= cs@.subrange(0, i as int));
        assert(index@ =~= old(index)@ + callables_symbols(t, cs@.subrange(0, i + 1)));
        i = i + 1;
    }
    assert(cs@.subrange(0, i as int) =~= cs@);
}

fn analyze_registers(
    rs: &Vec<RegisterDecl>,
    index: &mut SemanticIndex,
    tracker: &mut PositionTracker,
)
    requires
        old(index).wf(),
        old(tracker).current_pos == 0,
    ensures
        final(index).wf(),
        *final(tracker) == *old(tracker),
        final(index)@ == old(index)@ + registers_symbols(old(tracker).text.spec_bytes(), rs@),
{
    let ghost t = tracker.text.spec_bytes();
    let mut i: usize = 0;
    while i < rs.len()
        invariant
            index.wf(),
            i <= rs@.len(),
            *tracker == *old(tracker),
            tracker.current_pos == 0,
            t == old(tracker).text.spec_bytes(),
            index@ == old(index)@ + registers_symbols(t, rs@.subrange(0, i as int)),
        decreases rs@.len() - i,
    {
        let r = &rs[i];
        let details = SymbolDetails::Register { type_info: r.ty.clone() };
        index_name(index, tracker, &r.name, SymbolKind::Register, &details);
        assert(rs@.subrange(0, i + 1).drop_last() =~= rs@.subrange(0, i as int));
        assert(index@ =~= old(index)@ + registers_symbols(t, rs@.subrange(0, i + 1)));
        i = i + 1;
    }
    assert(rs@.subrange(0, i as int) =~= rs@);
}

fn analyze_names(
    ns: &Vec<String>,
    kind: SymbolKind,
    details: &SymbolDetails,
    index: &mut SemanticIndex,
    tracker: &mut PositionTracker,
)
    requires
        old(index).wf(),
        old(tracker).current_pos == 0,
    ensures
        final(index).wf(),
        *final(tracker) == *old(tracker),
        final(index)@ == old(index)@ + names_symbols(
            old(tracker).text.spec_bytes(),
            ns@,
            kind,
            details@,
        ),
{
    let ghost t = tracker.text.spec_bytes();
    let mut i: usize = 0;
    while i < ns.len()
        invariant
            index.wf(),
            i <= ns@.len(),
            *tracker == *old(tracker),
            tracker.current_pos == 0,
            t == old(tracker).text.spec_bytes(),
            index@ == old(index)@ + names_symbols(t, ns@.subrange(0, i as int), kind, details@),
        decreases ns@.len() - i,
    {
        index_name(index, tracker, &ns[i], kind, details);
        assert(ns@.subrange(0, i + 1).drop_last() =~= ns@.subrange(0, i as int));
        assert(index@ =~= old(index)@ + names_symbols(t, ns@.subrange(0, i + 1), kind, details@));
        i = i + 1;
    }
    assert(ns@.subrange(0, i as int) =~= ns@);
}

/// Indexes every machine of an assembly file, with its members.
pub fn analyze_asm(file: &AsmFile, index: &mut SemanticIndex, source_text: &str)
    requires
        old(index).wf(),
    ensures
        final(index).wf(),
        final(index)@ == old(index)@ + machines_symbols(source_text.spec_bytes(), file.machines@),
{
    let mut tracker = PositionTracker::new(source_text);
    let ghost t = source_text.spec_bytes();
    let ms = &file.machines;
    let mut i: usize = 0;
    while i < ms.len()
        invariant
            index.wf(),
            i <= ms@.len(),
            tracker.current_pos == 0,
            tracker.text == source_text,
            t == source_text.spec_bytes(),
            ms@ == file.machines@,
            index@ == old(index)@ + machines_symbols(t, ms@.subrange(0, i as int)),
        decreases ms@.len() - i,
    {
        let m = &ms[i];
        let ghost before = index@;
        let details = SymbolDetails::Machine { degree: m.degree };
        index_name(index, &mut tracker, &m.path, SymbolKind::Machine, &details);
        index_name(index, &mut tracker, &m.short_name, SymbolKind::Machine, &details);
        analyze_callables(&m.callables, index, &mut tracker);
        analyze_registers(&m.registers, index, &mut tracker);
        assert(index@ =~= before + machine_symbols(t, *m));
        assert(ms@.subrange(0, i + 1).drop_last() =~= ms@.subrange(0, i as int));
        assert(index@ =~= old(index)@ + machines_symbols(t, ms@.subrange(0, i + 1)));
        i = i + 1;
    }
    assert(ms@.subrange(0, i as int) =~= ms@);
}

/// Indexes the definitions, public declarations, intermediate columns and
/// trait implementations of a constraint file, in that order.
pub fn analyze_pil(pil: &PilFile, index: &mut SemanticIndex, source_text: &str)
    requires
        old(index).wf(),
    ensures
        final(index).wf(),
        final(index)@ == old(index)@ + pil_symbols(source_text.spec_bytes(), *pil),
{
    let mut tracker = PositionTracker::new(source_text);
    let ghost t = source_text.spec_bytes();
    let ghost i0 = index@;
    analyze_names(&pil.definitions, SymbolKind::Definition, &SymbolDetails::Definition, index, &mut tracker);
    analyze_names(&pil.public_declarations, SymbolKind::Public, &SymbolDetails::Public, index, &mut tracker);
    analyze_names(&pil.intermediate_columns, SymbolKind::Intermediate, &SymbolDetails::Intermediate, index, &mut tracker);
    analyze_names(&pil.trait_impls, SymbolKind::TraitImpl, &SymbolDetails::TraitImpl, index, &mut tracker);
    assert(index@ =~= i0 + pil_symbols(t, *pil));
}

/// Builds the semantic index of one document from its analysis and its text.
pub fn build_semantic_index(doc: &AnalyzedDoc, source_text: &str) -> (r: SemanticIndex)
    ensures
        r.wf(),
        r@ == doc_symbols(source_text.spec_bytes(), *doc),
{
    let mut index = SemanticIndex::new();
    match doc {
        AnalyzedDoc::ASM(file) => analyze_asm(file, &mut index, source_text),
        AnalyzedDoc::PIL(pil) => analyze_pil(pil, &mut index, source_text),
    }
    assert(index@ =~= doc_symbols(source_text.spec_bytes(), *doc));
    index
}

/// The symbol's span holds exactly its name's bytes, and is one of the spans
/// that the locator returns for that name.
pub open spec fn located(t: Seq<u8>, s: SymbolView) -> bool {
    &&& s.span.start <= s.span.end <= t.len()
    &&& t.subrange(s.span.start as int, s.span.end as int) == encode_utf8(s.name)
    &&& occurrences(t, encode_utf8(s.name), 0).contains(s.span)
}

pub open spec fn all_located(t: Seq<u8>, syms: Seq<SymbolView>) -> bool {
    forall|k: int| 0 <= k < syms.len() ==> located(t, #[trigger] syms[k])
}

proof fn lemma_concat_located(t: Seq<u8>, a: Seq<SymbolView>, b: Seq<SymbolView>)
    requires
        all_located(t, a),
        all_located(t, b),
    ensures
        all_located(t, a + b),
{
    assert forall|k: int| 0 <= k < (a + b).len() implies located(t, #[trigger] (a + b)[k]) by {
        if k < a.len() {
            assert((a + b)[k] == a[k]);
        } else {
            assert((a + b)[k] == b[k - a.len()]);
        }
    }
}

proof fn lemma_name_located(t: Seq<u8>, name: Seq<char>, kind: SymbolKind, d: DetailsView)
    requires
        t.len() <= usize::MAX,
    ensures
        all_located(t, name_symbols(t, name, kind, d)),
{
    let occ = occurrences(t, encode_utf8(name), 0);
    lemma_occurrences_valid(t, encode_utf8(name), 0);
    let syms = name_symbols(t, name, kind, d);
    assert forall|k: int| 0 <= k < syms.len() implies located(t, #[trigger] syms[k]) by {
        assert(syms[k].span == occ[k]);
        assert(span_of_name(t, encode_utf8(name), 0, occ[k]));
        assert(occ.contains(occ[k]));
    }
}

proof fn lemma_callables_located(t: Seq<u8>, cs: Seq<CallableDecl>)
    requires
        t.len() <= usize::MAX,
    ensures
        all_located(t, callables_symbols(t, cs)),
    decreases cs.len(),
{
    if cs.len() > 0 {
        let c = cs.last();
        lemma_callables_located(t, cs.drop_last());
        lemma_name_located(t, c.name@, SymbolKind::Callable, callable_details(c));
        lemma_concat_located(
            t,
            callables_symbols(t, cs.drop_last()),
            name_symbols(t, c.name@, SymbolKind::Callable, callable_details(c)),
        );
    }
}

proof fn lemma_registers_located(t: Seq<u8>, rs: Seq<RegisterDecl>)
    requires
        t.len() <= usize::MAX,
    ensures
        all_located(t, registers_symbols(t, rs)),
    decreases rs.len(),
{
    if rs.len() > 0 {
        let r = rs.last();
        let d = DetailsView::Register { type_info: r.ty@ };
        lemma_registers_located(t, rs.drop_last());
        lemma_name_located(t, r.name@, SymbolKind::Register, d);
        lemma_concat_located(
            t,
            registers_symbols(t, rs.drop_last()),
            name_symbols(t, r.name@, SymbolKind::Register, d),
        );
    }
}

proof fn lemma_machines_located(t: Seq<u8>, ms: Seq<MachineDecl>)
    requires
        t.len() <= usize::MAX,
    ensures
        all_located(t, machines_symbols(t, ms)),
    decreases ms.len(),
{
    if ms.len() > 0 {
        let m = ms.last();
        let d = DetailsView::Machine { degree: m.degree };
        lemma_machines_located(t, ms.drop_last());
        lemma_name_located(t, m.path@, SymbolKind::Machine, d);
        lemma_name_located(t, m.short_name@, SymbolKind::Machine, d);
        lemma_callables_located(t, m.callables@);
        lemma_registers_located(t, m.registers@);
        let a = name_symbols(t, m.path@, SymbolKind::Machine, d);
        let b = name_symbols(t, m.short_name@, SymbolKind::Machine, d);
        let c = callables_symbols(t, m.callables@);
        let r = registers_symbols(t, m.registers@);
        lemma_concat_located(t, a, b);
        lemma_concat_located(t, a + b, c);
        lemma_concat_located(t, a + b + c, r);
        lemma_concat_located(t, machines_symbols(t, ms.drop_last()), machine_symbols(t, m));
    }
}

proof fn lemma_names_located(t: Seq<u8>, ns: Seq<String>, kind: SymbolKind, d: DetailsView)
    requires
        t.len() <= usize::MAX,
    ensures
        all_located(t, names_symbols(t, ns, kind, d)),
    decreases ns.len(),
{
    if ns.len() > 0 {
        lemma_names_located(t, ns.drop_last(), kind, d);
        lemma_name_located(t, ns.last()@, kind, d);
        lemma_concat_located(
            t,
            names_symbols(t, ns.drop_last(), kind, d),
            name_symbols(t, ns.last()@, kind, d),
        );
    }
}

/// Every symbol of a document's index spans text that spells its name, at an
/// occurrence that the locator validated (identifier boundaries on both sides,
/// not on a commented line).
pub proof fn lemma_symbols_match_text(t: Seq<u8>, doc: AnalyzedDoc)
    requires
        t.len() <= usize::MAX,
    ensures
        forall|k: int|
            0 <= k < doc_symbols(t, doc).len() ==> {
                let s = #[trigger] doc_symbols(t, doc)[k];
                &&& located(t, s)
                &&& valid_occurrence(t, encode_utf8(s.name), s.span.start as int)
            },
{
    match doc {
        AnalyzedDoc::ASM(f) => lemma_machines_located(t, f.machines@),
        AnalyzedDoc::PIL(p) => {
            let a = names_symbols(t, p.definitions@, SymbolKind::Definition, DetailsView::Definition);
            let b = names_symbols(t, p.public_declarations@, SymbolKind::Public, DetailsView::Public);
            let c = names_symbols(
                t,
                p.intermediate_columns@,
                SymbolKind::Intermediate,
                DetailsView::Intermediate,
            );
            let e = names_symbols(t, p.trait_impls@, SymbolKind::TraitImpl, DetailsView::TraitImpl);
            lemma_names_located(t, p.definitions@, SymbolKind::Definition, DetailsView::Definition);
            lemma_names_located(t, p.public_declarations@, SymbolKind::Public, DetailsView::Public);
            lemma_names_located(
                t,
                p.intermediate_columns@,
                SymbolKind::Intermediate,
                DetailsView::Intermediate,
            );
            lemma_names_located(t, p.trait_impls@, SymbolKind::TraitImpl, DetailsView::TraitImpl);
            lemma_concat_located(t, a, b);
            lemma_concat_located(t, a + b, c);
            lemma_concat_located(t, a + b + c, e);
        },
    }
    let syms = doc_symbols(t, doc);
    assert forall|k: int| 0 <= k < syms.len() implies valid_occurrence(
        t,
        encode_utf8(syms[k].name),
        syms[k].span.start as int,
    ) by {
        let s = syms[k];
        assert(located(t, s));
        let p = encode_utf8(s.name);
        lemma_occurrences_valid(t, p, 0);
        let j = choose|j: int| 0 <= j < occurrences(t, p, 0).len() && occurrences(t, p, 0)[j] == s.span;
        assert(span_of_name(t, p, 0, occurrences(t, p, 0)[j]));
    }
}

/// Indexing is a function of the text and the analysis: two indices built
/// from the same text and the same analysis hold the same symbols, in the same
/// order, with the same spans and details.
pub proof fn lemma_rebuild_same_contents(
    t: Seq<u8>,
    doc: AnalyzedDoc,
    first: SemanticIndex,
    second: SemanticIndex,
)
    requires
        first@ == doc_symbols(t, doc),
        second@ == doc_symbols(t, doc),
    ensures
        first@ == second@,
{
}

/// `sp` is the span of some symbol among `syms`.
pub open spec fn covered(syms: Seq<SymbolView>, sp: Span) -> bool {
    exists|k: int| 0 <= k < syms.len() && syms[k].span == sp
}

/// The analysis declares an entity whose name the extractor searches for as `n`.
pub open spec fn declares(doc: AnalyzedDoc, n: Seq<char>) -> bool {
    match doc {
        AnalyzedDoc::ASM(f) => exists|i: int|
            0 <= i < f.machines@.len() && {
                let m = #[trigger] f.machines@[i];
                ||| m.path@ == n
                ||| m.short_name@ == n
                ||| exists|j: int| 0 <= j < m.callables@.len() && (#[trigger] m.callables@[j]).name@ == n
                ||| exists|j: int| 0 <= j < m.registers@.len() && (#[trigger] m.registers@[j]).name@ == n
            },
        AnalyzedDoc::PIL(p) => {
            ||| exists|i: int| 0 <= i < p.definitions@.len() && (#[trigger] p.definitions@[i])@ == n
            ||| exists|i: int|
                0 <= i < p.public_declarations@.len() && (#[trigger] p.public_declarations@[i])@ == n
            ||| exists|i: int|
                0 <= i < p.intermediate_columns@.len() && (#[trigger] p.intermediate_columns@[i])@ == n
            ||| exists|i: int| 0 <= i < p.trait_impls@.len() && (#[trigger] p.trait_impls@[i])@ == n
        },
    }
}

proof fn lemma_covered_left(a: Seq<SymbolView>, b: Seq<SymbolView>, sp: Span)
    requires
        covered(a, sp),
    ensures
        covered(a + b, sp),
{
    let k = choose|k: int| 0 <= k < a.len() && a[k].span == sp;
    assert((a + b)[k] == a[k]);
}

proof fn lemma_covered_right(a: Seq<SymbolView>, b: Seq<SymbolView>, sp: Span)
    requires
        covered(b, sp),
    ensures
        covered(a + b, sp),
{
    let k = choose|k: int| 0 <= k < b.len() && b[k].span == sp;
    assert((a + b)[a.len() + k] == b[k]);
}

proof fn lemma_name_covered(t: Seq<u8>, name: Seq<char>, kind: SymbolKind, d: DetailsView, sp: Span)
    requires
        occurrences(t, encode_utf8(name), 0).contains(sp),
    ensures
        covered(name_symbols(t, name, kind, d), sp),
{
    let occ = occurrences(t, encode_utf8(name), 0);
    let j = choose|j: int| 0 <= j < occ.len() && occ[j] == sp;
    assert(name_symbols(t, name, kind, d)[j].span == sp);
}

proof fn lemma_names_covered(t: Seq<u8>, ns: Seq<String>, kind: SymbolKind, d: DetailsView, i: int, sp: Span)
    requires
        0 <= i < ns.len(),
        occurrences(t, encode_utf8(ns[i]@), 0).contains(sp),
    ensures
        covered(names_symbols(t, ns, kind, d), sp),
    decreases ns.len(),
{
    if i == ns.len() - 1 {
        lemma_name_covered(t, ns.last()@, kind, d, sp);
        lemma_covered_right(names_symbols(t, ns.drop_last(), kind, d), name_symbols(t, ns.last()@, kind, d), sp);
    } else {
        assert(ns.drop_last()[i] == ns[i]);
        lemma_names_covered(t, ns.drop_last(), kind, d, i, sp);
        lemma_covered_left(names_symbols(t, ns.drop_last(), kind, d), name_symbols(t, ns.last()@, kind, d), sp);
    }
}

proof fn lemma_callables_covered(t: Seq<u8>, cs: Seq<CallableDecl>, i: int, sp: Span)
    requires
        0 <= i < cs.len(),
        occurrences(t, encode_utf8(cs[i].name@), 0).contains(sp),
    ensures
        covered(callables_symbols(t, cs), sp),
    decreases cs.len(),
{
    let c = cs.last();
    let tail = name_symbols(t, c.name@, SymbolKind::Callable, callable_details(c));
    if i == cs.len() - 1 {
        lemma_name_covered(t, c.name@, SymbolKind::Callable, callable_details(c), sp);
        lemma_covered_right(callables_symbols(t, cs.drop_last()), tail, sp);
    } else {
        assert(cs.drop_last()[i] == cs[i]);
        lemma_callables_covered(t, cs.drop_last(), i, sp);
        lemma_covered_left(callables_symbols(t, cs.drop_last()), tail, sp);
    }
}

proof fn lemma_registers_covered(t: Seq<u8>, rs: Seq<RegisterDecl>, i: int, sp: Span)
    requires
        0 <= i < rs.len(),
        occurrences(t, encode_utf8(rs[i].name@), 0).contains(sp),
    ensures
        covered(registers_symbols(t, rs), sp),
    decreases rs.len(),
{
    let r = rs.last();
    let d = DetailsView::Register { type_info: r.ty@ };
    let tail = name_symbols(t, r.name@, SymbolKind::Register, d);
    if i == rs.len() - 1 {
        lemma_name_covered(t, r.name@, SymbolKind::Register, d, sp);
        lemma_covered_right(registers_symbols(t, rs.drop_last()), tail, sp);
    } else {
        assert(rs.drop_last()[i] == rs[i]);
        lemma_registers_covered(t, rs.drop_last(), i, sp);
        lemma_covered_left(registers_symbols(t, rs.drop_last()), tail, sp);
    }
}

proof fn lemma_machine_covered(t: Seq<u8>, m: MachineDecl, n: Seq<char>, sp: Span)
    requires
        occurrences(t, encode_utf8(n), 0).contains(sp),
        m.path@ == n || m.short_name@ == n || (exists|j: int|
            0 <= j < m.callables@.len() && (#[trigger] m.callables@[j]).name@ == n) || (exists|j: int|
            0 <= j < m.registers@.len() && (#[trigger] m.registers@[j]).name@ == n),
    ensures
        covered(machine_symbols(t, m), sp),
{
    let d = DetailsView::Machine { degree: m.degree };
    let a = name_symbols(t, m.path@, SymbolKind::Machine, d);
    let b = name_symbols(t, m.short_name@, SymbolKind::Machine, d);
    let c = callables_symbols(t, m.callables@);
    let r = registers_symbols(t, m.registers@);
    if m.path@ == n {
        lemma_name_covered(t, n, SymbolKind::Machine, d, sp);
        lemma_covered_left(a, b, sp);
        lemma_covered_left(a + b, c, sp);
        lemma_covered_left(a + b + c, r, sp);
    } else if m.short_name@ == n {
        lemma_name_covered(t, n, SymbolKind::Machine, d, sp);
        lemma_covered_right(a, b, sp);
        lemma_covered_left(a + b, c, sp);
        lemma_covered_left(a + b + c, r, sp);
    } else if exists|j: int| 0 <= j < m.callables@.len() && (#[trigger] m.callables@[j]).name@ == n {
        let j = choose|j: int| 0 <= j < m.callables@.len() && (#[trigger] m.callables@[j]).name@ == n;
        lemma_callables_covered(t, m.callables@, j, sp);
        lemma_covered_right(a + b, c, sp);
        lemma_covered_left(a + b + c, r, sp);
    } else {
        let j = choose|j: int| 0 <= j < m.registers@.len() && (#[trigger] m.registers@[j]).name@ == n;
        lemma_registers_covered(t, m.registers@, j, sp);
        lemma_covered_right(a + b + c, r, sp);
    }
}

proof fn lemma_machines_covered(t: Seq<u8>, ms: Seq<MachineDecl>, i: int, n: Seq<char>, sp: Span)
    requires
        0 <= i < ms.len(),
        occurrences(t, encode_utf8(n), 0).contains(sp),
        ({
            let m = ms[i];
            m.path@ == n || m.short_name@ == n || (exists|j: int|
                0 <= j < m.callables@.len() && (#[trigger] m.callables@[j]).name@ == n) || (exists|j: int|
                0 <= j < m.registers@.len() && (#[trigger] m.registers@[j]).name@ == n)
        }),
    ensures
        covered(machines_symbols(t, ms), sp),
    decreases ms.len(),
{
    if i == ms.len() - 1 {
        lemma_machine_covered(t, ms.last(), n, sp);
        lemma_covered_right(machines_symbols(t, ms.drop_last()), machine_symbols(t, ms.last()), sp);
    } else {
        assert(ms.drop_last()[i] == ms[i]);
        lemma_machines_covered(t, ms.drop_last(), i, n, sp);
        lemma_covered_left(machines_symbols(t, ms.drop_last()), machine_symbols(t, ms.last()), sp);
    }
}

/// Every span that the locator validates for a name that the analysis
/// declares is the span of an indexed symbol, so a point query anywhere in it
/// finds a symbol.
pub proof fn lemma_validated_spans_indexed(t: Seq<u8>, doc: AnalyzedDoc, name: Seq<char>, sp: Span)
    requires
        declares(doc, name),
        occurrences(t, encode_utf8(name), 0).contains(sp),
    ensures
        covered(doc_symbols(t, doc), sp),
{
    match doc {
        AnalyzedDoc::ASM(f) => {
            let i = choose|i: int|
                0 <= i < f.machines@.len() && {
                    let m = #[trigger] f.machines@[i];
                    ||| m.path@ == name
                    ||| m.short_name@ == name
                    ||| exists|j: int| 0 <= j < m.callables@.len() && (#[trigger] m.callables@[j]).name@ == name
                    ||| exists|j: int| 0 <= j < m.registers@.len() && (#[trigger] m.registers@[j]).name@ == name
                };
            lemma_machines_covered(t, f.machines@, i, name, sp);
        },
        AnalyzedDoc::PIL(p) => {
            let a = names_symbols(t, p.definitions@, SymbolKind::Definition, DetailsView::Definition);
            let b = names_symbols(t, p.public_declarations@, SymbolKind::Public, DetailsView::Public);
            let c = names_symbols(
                t,
                p.intermediate_columns@,
                SymbolKind::Intermediate,
                DetailsView::Intermediate,
            );
            let e = names_symbols(t, p.trait_impls@, SymbolKind::TraitImpl, DetailsView::TraitImpl);
            if exists|i: int| 0 <= i < p.definitions@.len() && (#[trigger] p.definitions@[i])@ == name {
                let i = choose|i: int| 0 <= i < p.definitions@.len() && (#[trigger] p.definitions@[i])@ == name;
                lemma_names_covered(t, p.definitions@, SymbolKind::Definition, DetailsView::Definition, i, sp);
                lemma_covered_left(a, b, sp);
                lemma_covered_left(a + b, c, sp);
                lemma_covered_left(a + b + c, e, sp);
            } else if exists|i: int|
                0 <= i < p.public_declarations@.len() && (#[trigger] p.public_declarations@[i])@ == name {
                let i = choose|i: int|
                    0 <= i < p.public_declarations@.len() && (#[trigger] p.public_declarations@[i])@ == name;
                lemma_names_covered(t, p.public_declarations@, SymbolKind::Public, DetailsView::Public, i, sp);
                lemma_covered_right(a, b, sp);
                lemma_covered_left(a + b, c, sp);
                lemma_covered_left(a + b + c, e, sp);
            } else if exists|i: int|
                0 <= i < p.intermediate_columns@.len() && (#[trigger] p.intermediate_columns@[i])@ == name {
                let i = choose|i: int|
                    0 <= i < p.intermediate_columns@.len() && (#[trigger] p.intermediate_columns@[i])@ == name;
                lemma_names_covered(
                    t,
                    p.intermediate_columns@,
                    SymbolKind::Intermediate,
                    DetailsView::Intermediate,
                    i,
                    sp,
                );
                lemma_covered_right(a + b, c, sp);
                lemma_covered_left(a + b + c, e, sp);
            } else {
                let i = choose|i: int| 0 <= i < p.trait_impls@.len() && (#[trigger] p.trait_impls@[i])@ == name;
                lemma_names_covered(t, p.trait_impls@, SymbolKind::TraitImpl, DetailsView::TraitImpl, i, sp);
                lemma_covered_right(a + b + c, e, sp);
            }
        },
    }
}

} // verus!
