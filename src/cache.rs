use vstd::prelude::*;

use vstd::utf8::encode_utf8;

use crate::analyzer::{build_semantic_index, doc_symbols};
use crate::hover::{hover_at, hover_result};
use crate::parser::{AnalyzedDoc, Position};
use crate::symbol::{SemanticIndex, SymbolKind, SymbolView};

verus! {

/// One tracked document: its analysis, its text, the editor's version counter
/// and the index built from the first two.
pub struct ParsedDocument {
    pub analyzed: AnalyzedDoc,
    pub text: String,
    pub version: i32,
    pub semantic_index: SemanticIndex,
}

/// One entry of the workspace symbol table: a symbol's name, the document
/// holding it, and its kind.
pub struct SymbolLocation {
    pub name: String,
    pub uri: String,
    pub kind: SymbolKind,
}

/// What a lookup of `n` in the entries `es` lists: `(uri, kind)` of each entry
/// named `n`, in the order of the entries.
pub open spec fn lookup_of(es: Seq<SymbolLocation>, n: Seq<char>) -> Seq<(Seq<char>, SymbolKind)>
    decreases es.len(),
{
    if es.len() == 0 {
        seq![]
    } else {
        let e = es.last();
        lookup_of(es.drop_last(), n) + if e.name@ == n {
            seq![(e.uri@, e.kind)]
        } else {
            seq![]
        }
    }
}

/// The kinds that a lookup result lists for the document `u`, in order.
pub open spec fn kinds_at(l: Seq<(Seq<char>, SymbolKind)>, u: Seq<char>) -> Seq<SymbolKind>
    decreases l.len(),
{
    if l.len() == 0 {
        seq![]
    } else {
        kinds_at(l.drop_last(), u) + if l.last().0 == u {
            seq![l.last().1]
        } else {
            seq![]
        }
    }
}

/// The kinds of the symbols named `n`, in id order.
pub open spec fn kinds_named(syms: Seq<SymbolView>, n: Seq<char>) -> Seq<SymbolKind>
    decreases syms.len(),
{
    if syms.len() == 0 {
        seq![]
    } else {
        kinds_named(syms.drop_last(), n) + if syms.last().name == n {
            seq![syms.last().kind]
        } else {
            seq![]
        }
    }
}

pub open spec fn uris_unique(docs: Seq<(String, ParsedDocument)>) -> bool {
    forall|i: int, j: int|
        0 <= i < docs.len() && 0 <= j < docs.len() && docs[i].0@ == docs[j].0@ ==> i == j
}

pub open spec fn doc_of(docs: Seq<(String, ParsedDocument)>, u: Seq<char>) -> Option<ParsedDocument> {
    if exists|k: int| 0 <= k < docs.len() && docs[k].0@ == u {
        Some(docs[choose|k: int| 0 <= k < docs.len() && docs[k].0@ == u].1)
    } else {
        None
    }
}

/// The kinds of the symbols named `n` in document `d`, if there is one.
pub open spec fn doc_kinds(d: Option<ParsedDocument>, n: Seq<char>) -> Seq<SymbolKind> {
    match d {
        Some(doc) => kinds_named(doc.semantic_index@, n),
        None => seq![],
    }
}

proof fn lemma_kinds_at_concat(a: Seq<(Seq<char>, SymbolKind)>, b: Seq<(Seq<char>, SymbolKind)>, u: Seq<char>)
    ensures
        kinds_at(a + b, u) == kinds_at(a, u) + kinds_at(b, u),
    decreases b.len(),
{
    if b.len() == 0 {
        assert(a + b =~= a);
        assert(kinds_at(a, u) + kinds_at(b, u) =~= kinds_at(a, u));
    } else {
        lemma_kinds_at_concat(a, b.drop_last(), u);
        assert((a + b).drop_last() =~= a + b.drop_last());
        assert((a + b).last() == b.last());
        assert(kinds_at(a + b, u) =~= kinds_at(a, u) + kinds_at(b, u));
    }
}

proof fn lemma_kinds_at_empty(l: Seq<(Seq<char>, SymbolKind)>, u: Seq<char>)
    requires
        kinds_at(l, u).len() == 0,
    ensures
        forall|k: int| 0 <= k < l.len() ==> l[k].0 != u,
    decreases l.len(),
{
    if l.len() > 0 {
        lemma_kinds_at_empty(l.drop_last(), u);
        assert forall|k: int| 0 <= k < l.len() implies l[k].0 != u by {
            if k < l.len() - 1 {
                assert(l[k] == l.drop_last()[k]);
            }
        }
    }
}

proof fn lemma_doc_at(docs: Seq<(String, ParsedDocument)>, k: int)
    requires
        uris_unique(docs),
        0 <= k < docs.len(),
    ensures
        doc_of(docs, docs[k].0@) == Some(docs[k].1),
{
    let u = docs[k].0@;
    assert(exists|j: int| 0 <= j < docs.len() && docs[j].0@ == u);
    let c = choose|j: int| 0 <= j < docs.len() && docs[j].0@ == u;
    assert(c == k);
}

/// The entry list step of a lookup: one more entry appends at most one pair.
proof fn lemma_lookup_push(es: Seq<SymbolLocation>, e: SymbolLocation, n: Seq<char>, u: Seq<char>)
    ensures
        kinds_at(lookup_of(es.push(e), n), u) == kinds_at(lookup_of(es, n), u) + if e.name@ == n
            && e.uri@ == u {
            seq![e.kind]
        } else {
            seq![]
        },
{
    assert(es.push(e).drop_last() =~= es);
    let x = if e.name@ == n {
        seq![(e.uri@, e.kind)]
    } else {
        seq![]
    };
    lemma_kinds_at_concat(lookup_of(es, n), x, u);
    if e.name@ == n {
        assert(x.drop_last() =~= Seq::<(Seq<char>, SymbolKind)>::empty());
        assert(x.last() == (e.uri@, e.kind));
        assert(kinds_at(x.drop_last(), u) =~= Seq::<SymbolKind>::empty());
        assert(kinds_at(x, u) =~= if e.uri@ == u {
            seq![e.kind]
        } else {
            seq![]
        });
    } else {
        assert(kinds_at(x, u) =~= Seq::<SymbolKind>::empty());
    }
    assert(kinds_at(lookup_of(es, n), u) + Seq::<SymbolKind>::empty() =~= kinds_at(
        lookup_of(es, n),
        u,
    ));
}

/// The documents of the workspace, and the symbol table aggregated from
/// their indices.
pub struct ProjectCache {
    documents: Vec<(String, ParsedDocument)>,
    symbol_locations: Vec<SymbolLocation>,
}

impl ProjectCache {
    /// The document tracked under `uri`, if any.
    pub closed spec fn document(&self, uri: Seq<char>) -> Option<ParsedDocument> {
        doc_of(self.documents@, uri)
    }

    /// What a workspace lookup of `name` lists.
    pub closed spec fn locations(&self, name: Seq<char>) -> Seq<(Seq<char>, SymbolKind)> {
        lookup_of(self.symbol_locations@, name)
    }

    /// Documents are tracked once each with a well-formed index, and for every
    /// document and name the table lists exactly the kinds of that document's
    /// symbols with that name, in id order.
    pub closed spec fn wf(&self) -> bool {
        &&& uris_unique(self.documents@)
        &&& forall|k: int|
            0 <= k < self.documents@.len() ==> (#[trigger] self.documents@[k]).1.semantic_index.wf()
        &&& forall|u: Seq<char>, n: Seq<char>|
            #[trigger] kinds_at(lookup_of(self.symbol_locations@, n), u) == doc_kinds(
                doc_of(self.documents@, u),
                n,
            )
    }

    pub fn new() -> (r: Self)
        ensures
            r.wf(),
            forall|u: Seq<char>| r.document(u) is None,
            forall|n: Seq<char>| r.locations(n) == Seq::<(Seq<char>, SymbolKind)>::empty(),
    {
        ProjectCache { documents: Vec::new(), symbol_locations: Vec::new() }
    }

    /// Drops every table entry attributed to `uri`; entries of other
    /// documents keep their order.
    fn remove_document_symbols(&mut self, uri: &String)
        ensures
            final(self).documents@ == old(self).documents@,
            forall|u: Seq<char>, n: Seq<char>|
                #[trigger] kinds_at(lookup_of(final(self).symbol_locations@, n), u) == if u == uri@ {
                    Seq::<SymbolKind>::empty()
                } else {
                    kinds_at(lookup_of(old(self).symbol_locations@, n), u)
                },
    {
        let mut old_entries: Vec<SymbolLocation> = Vec::new();
        std::mem::swap(&mut old_entries, &mut self.symbol_locations);
        let mut i: usize = 0;
        while i < old_entries.len()
            invariant
                i <= old_entries@.len(),
                old_entries@ == old(self).symbol_locations@,
                self.documents@ == old(self).documents@,
                forall|u: Seq<char>, n: Seq<char>|
                    #[trigger] kinds_at(lookup_of(self.symbol_locations@, n), u) == if u == uri@ {
                        Seq::<SymbolKind>::empty()
                    } else {
                        kinds_at(lookup_of(old_entries@.subrange(0, i as int), n), u)
                    },
            decreases old_entries@.len() - i,
        {
            let e = &old_entries[i];
            let ghost before = self.symbol_locations@;
            let ghost prefix = old_entries@.subrange(0, i as int);
            assert(old_entries@.subrange(0, i + 1) =~= prefix.push(*e));
            if e.uri != *uri {
                self.symbol_locations.push(
                    SymbolLocation { name: e.name.clone(), uri: e.uri.clone(), kind: e.kind },
                );
            }
            assert forall|u: Seq<char>, n: Seq<char>|
                #[trigger] kinds_at(lookup_of(self.symbol_locations@, n), u) == if u == uri@ {
                    Seq::<SymbolKind>::empty()
                } else {
                    kinds_at(lookup_of(old_entries@.subrange(0, i + 1), n), u)
                } by {
                lemma_lookup_push(prefix, *e, n, u);
                if e.uri@ != uri@ {
                    lemma_lookup_push(before, self.symbol_locations@.last(), n, u);
                    assert(self.symbol_locations@ == before.push(self.symbol_locations@.last()));
                }
            }
            i = i + 1;
        }
        assert(old_entries@.subrange(0, i as int) =~= old_entries@);
    }

    /// Appends one table entry per symbol of `index`, attributed to `uri`.
    fn add_document_symbols(&mut self, uri: &String, index: &SemanticIndex)
        ensures
            final(self).documents@ == old(self).documents@,
            forall|u: Seq<char>, n: Seq<char>|
                #[trigger] kinds_at(lookup_of(final(self).symbol_locations@, n), u) == kinds_at(
                    lookup_of(old(self).symbol_locations@, n),
                    u,
                ) + if u == uri@ {
                    kinds_named(index@, n)
                } else {
                    Seq::<SymbolKind>::empty()
                },
    {
        let entries = index.get_all_ranges();
        let mut i: usize = 0;
        while i < entries.len()
            invariant
                i <= entries@.len(),
                entries@.len() == index@.len(),
                forall|k: int| 0 <= k < entries@.len() ==> entries@[k].1@ == index@[k],
                self.documents@ == old(self).documents@,
                forall|u: Seq<char>, n: Seq<char>|
                    #[trigger] kinds_at(lookup_of(self.symbol_locations@, n), u) == kinds_at(
                        lookup_of(old(self).symbol_locations@, n),
                        u,
                    ) + if u == uri@ {
                        kinds_named(index@.subrange(0, i as int), n)
                    } else {
                        Seq::<SymbolKind>::empty()
                    },
            decreases entries@.len() - i,
        {
            let s = entries[i].1;
            let ghost before = self.symbol_locations@;
            let e = SymbolLocation { name: s.name.clone(), uri: uri.clone(), kind: s.kind };
            self.symbol_locations.push(e);
            assert(index@.subrange(0, i + 1).drop_last() =~= index@.subrange(0, i as int));
            assert(index@.subrange(0, i + 1).last() == s@);
            assert forall|u: Seq<char>, n: Seq<char>|
                #[trigger] kinds_at(lookup_of(self.symbol_locations@, n), u) == kinds_at(
                    lookup_of(old(self).symbol_locations@, n),
                    u,
                ) + if u == uri@ {
                    kinds_named(index@.subrange(0, i + 1), n)
                } else {
                    Seq::<SymbolKind>::empty()
                } by {
                lemma_lookup_push(before, e, n, u);
                assert(self.symbol_locations@ == before.push(e));
                if u == uri@ {
                    assert(kinds_at(lookup_of(old(self).symbol_locations@, n), u) + kinds_named(
                        index@.subrange(0, i + 1),
                        n,
                    ) =~= kinds_at(lookup_of(old(self).symbol_locations@, n), u) + kinds_named(
                        index@.subrange(0, i as int),
                        n,
                    ) + if s@.name == n {
                        seq![s@.kind]
                    } else {
                        seq![]
                    });
                } else {
                    assert(kinds_at(lookup_of(old(self).symbol_locations@, n), u)
                        + Seq::<SymbolKind>::empty() =~= kinds_at(
                        lookup_of(old(self).symbol_locations@, n),
                        u,
                    ));
                }
            }
            i = i + 1;
        }
        assert(index@.subrange(0, i as int) =~= index@);
    }

    /// Replaces whatever was tracked under `uri` by `doc`, and brings the
    /// symbol table along: the old document's entries go, the new one's come.
    pub fn update_document(&mut self, uri: String, doc: ParsedDocument)
        requires
            old(self).wf(),
            doc.semantic_index.wf(),
        ensures
            final(self).wf(),
            final(self).document(uri@) == Some(doc),
            forall|u: Seq<char>| u != uri@ ==> final(self).document(u) == old(self).document(u),
    {
        self.remove_document_symbols(&uri);
        self.add_document_symbols(&uri, &doc.semantic_index);
        let ghost mid_entries = self.symbol_locations@;
        let ghost old_docs = self.documents@;
        let mut i: usize = 0;
        while i < self.documents.len() && self.documents[i].0 != uri
            invariant
                i <= self.documents@.len(),
                self.documents@ == old_docs,
                forall|k: int| 0 <= k < i ==> self.documents@[k].0@ != uri@,
            decreases self.documents@.len() - i,
        {
            i = i + 1;
        }
        let found = i < self.documents.len();
        let ghost u0 = uri@;
        if found {
            self.documents.set(i, (uri, doc));
        } else {
            self.documents.push((uri, doc));
        }
        let ghost new_docs = self.documents@;
        proof {
            assert(new_docs[i as int].0@ == u0 && new_docs[i as int].1 == doc);
            assert forall|a: int, b: int|
                0 <= a < new_docs.len() && 0 <= b < new_docs.len() && new_docs[a].0@
                    == new_docs[b].0@ implies a == b by {
                if a != i && b != i {
                    assert(old_docs[a] == new_docs[a] && old_docs[b] == new_docs[b]);
                } else if a == i && b != i {
                    assert(old_docs[b] == new_docs[b]);
                    if found {
                        assert(old_docs[a].0@ == u0);
                    }
                } else if b == i && a != i {
                    assert(old_docs[a] == new_docs[a]);
                    if found {
                        assert(old_docs[b].0@ == u0);
                    }
                }
            }
            lemma_doc_at(new_docs, i as int);
            assert forall|u: Seq<char>| u != u0 implies doc_of(new_docs, u) == doc_of(old_docs, u) by {
                if exists|k: int| 0 <= k < old_docs.len() && old_docs[k].0@ == u {
                    let k = choose|k: int| 0 <= k < old_docs.len() && old_docs[k].0@ == u;
                    assert(k != i);
                    assert(new_docs[k] == old_docs[k]);
                    lemma_doc_at(old_docs, k);
                    lemma_doc_at(new_docs, k);
                } else {
                    assert forall|k: int| 0 <= k < new_docs.len() implies new_docs[k].0@ != u by {
                        if k != i {
                            assert(new_docs[k] == old_docs[k]);
                        }
                    }
                }
            }
            assert forall|k: int| 0 <= k < new_docs.len() implies (
            #[trigger] new_docs[k]).1.semantic_index.wf() by {
                if k != i {
                    assert(new_docs[k] == old_docs[k]);
                }
            }
            assert forall|u: Seq<char>, n: Seq<char>|
                #[trigger] kinds_at(lookup_of(self.symbol_locations@, n), u) == doc_kinds(
                    doc_of(new_docs, u),
                    n,
                ) by {
                if u == u0 {
                    assert(Seq::<SymbolKind>::empty() + kinds_named(doc.semantic_index@, n)
                        =~= kinds_named(doc.semantic_index@, n));
                } else {
                    assert(kinds_at(lookup_of(old(self).symbol_locations@, n), u)
                        + Seq::<SymbolKind>::empty() =~= kinds_at(
                        lookup_of(old(self).symbol_locations@, n),
                        u,
                    ));
                }
            }
        }
    }

    /// Builds the index of `text` under `analyzed` and tracks the result
    /// under `uri`.
    pub fn upsert(&mut self, uri: String, analyzed: AnalyzedDoc, text: String, version: i32)
        requires
            old(self).wf(),
        ensures
            final(self).wf(),
            final(self).document(uri@) matches Some(d) && d.analyzed == analyzed && d.text == text
                && d.version == version && d.semantic_index@ == doc_symbols(encode_utf8(text@), analyzed),
            forall|u: Seq<char>| u != uri@ ==> final(self).document(u) == old(self).document(u),
    {
        let semantic_index = build_semantic_index(&analyzed, text.as_str());
        let doc = ParsedDocument { analyzed, text, version, semantic_index };
        self.update_document(uri, doc);
    }

    /// Stops tracking `uri` and purges its table entries.
    pub fn remove_document(&mut self, uri: &String)
        requires
            old(self).wf(),
        ensures
            final(self).wf(),
            final(self).document(uri@) is None,
            forall|u: Seq<char>| u != uri@ ==> final(self).document(u) == old(self).document(u),
    {
        self.remove_document_symbols(uri);
        let ghost old_docs = self.documents@;
        let mut i: usize = 0;
        while i < self.documents.len() && self.documents[i].0 != *uri
            invariant
                i <= self.documents@.len(),
                self.documents@ == old_docs,
                forall|k: int| 0 <= k < i ==> self.documents@[k].0@ != uri@,
            decreases self.documents@.len() - i,
        {
            i = i + 1;
        }
        let found = i < self.documents.len();
        if found {
            self.documents.remove(i);
        }
        let ghost new_docs = self.documents@;
        proof {
            let u0 = uri@;
            assert forall|k: int| 0 <= k < new_docs.len() implies new_docs[k] == old_docs[if k < i {
                k
            } else if found {
                k + 1
            } else {
                k
            }] by {}
            assert forall|a: int, b: int|
                0 <= a < new_docs.len() && 0 <= b < new_docs.len() && new_docs[a].0@
                    == new_docs[b].0@ implies a == b by {
                let a2 = if a < i { a } else if found { a + 1 } else { a };
                let b2 = if b < i { b } else if found { b + 1 } else { b };
                assert(new_docs[a] == old_docs[a2] && new_docs[b] == old_docs[b2]);
            }
            assert forall|k: int| 0 <= k < new_docs.len() implies new_docs[k].0@ != u0 by {
                let k2 = if k < i { k } else if found { k + 1 } else { k };
                assert(new_docs[k] == old_docs[k2]);
                if found {
                    assert(old_docs[i as int].0@ == u0);
                }
            }
            assert forall|u: Seq<char>| u != u0 implies doc_of(new_docs, u) == doc_of(old_docs, u) by {
                if exists|k: int| 0 <= k < old_docs.len() && old_docs[k].0@ == u {
                    let k = choose|k: int| 0 <= k < old_docs.len() && old_docs[k].0@ == u;
                    let k2 = if k < i { k } else { k - 1 };
                    assert(found ==> k != i);
                    if !found {
                        assert(k < i || k >= old_docs.len());
                    }
                    assert(new_docs[k2] == old_docs[k]);
                    lemma_doc_at(old_docs, k);
                    lemma_doc_at(new_docs, k2);
                } else {
                    assert forall|k: int| 0 <= k < new_docs.len() implies new_docs[k].0@ != u by {
                        let k2 = if k < i { k } else if found { k + 1 } else { k };
                        assert(new_docs[k] == old_docs[k2]);
                    }
                }
            }
            assert forall|k: int| 0 <= k < new_docs.len() implies (
            #[trigger] new_docs[k]).1.semantic_index.wf() by {
                let k2 = if k < i { k } else if found { k + 1 } else { k };
                assert(new_docs[k] == old_docs[k2]);
            }
            assert forall|u: Seq<char>, n: Seq<char>|
                #[trigger] kinds_at(lookup_of(self.symbol_locations@, n), u) == doc_kinds(
                    doc_of(new_docs, u),
                    n,
                ) by {}
        }
    }

    /// The documents and kinds that the table lists for `name`, in order.
    pub fn get_symbol_locations(&self, name: &String) -> (r: Vec<(String, SymbolKind)>)
        ensures
            r@.len() == self.locations(name@).len(),
            forall|k: int|
                0 <= k < r@.len() ==> r@[k].0@ == self.locations(name@)[k].0 && r@[k].1
                    == self.locations(name@)[k].1,
    {
        let es = &self.symbol_locations;
        let mut r: Vec<(String, SymbolKind)> = Vec::new();
        let mut i: usize = 0;
        while i < es.len()
            invariant
                i <= es@.len(),
                r@.len() == lookup_of(es@.subrange(0, i as int), name@).len(),
                forall|k: int|
                    0 <= k < r@.len() ==> r@[k].0@ == lookup_of(es@.subrange(0, i as int), name@)[k].0
                        && r@[k].1 == lookup_of(es@.subrange(0, i as int), name@)[k].1,
            decreases es@.len() - i,
        {
            assert(es@.subrange(0, i + 1).drop_last() =~= es@.subrange(0, i as int));
            assert(es@.subrange(0, i + 1).last() == es@[i as int]);
            if es[i].name == *name {
                r.push((es[i].uri.clone(), es[i].kind));
            }
            i = i + 1;
        }
        assert(es@.subrange(0, i as int) =~= es@);
        r
    }

    /// The document tracked under `uri`, if any.
    pub fn get_document(&self, uri: &String) -> (r: Option<&ParsedDocument>)
        requires
            self.wf(),
        ensures
            match self.document(uri@) {
                Some(d) => r matches Some(x) && *x == d,
                None => r is None,
            },
    {
        let mut i: usize = 0;
        while i < self.documents.len()
            invariant
                self.wf(),
                i <= self.documents@.len(),
                forall|k: int| 0 <= k < i ==> self.documents@[k].0@ != uri@,
            decreases self.documents@.len() - i,
        {
            if self.documents[i].0 == *uri {
                proof {
                    lemma_doc_at(self.documents@, i as int);
                }
                return Some(&self.documents[i].1);
            }
            i = i + 1;
        }
        None
    }

    /// The hover text at `position` in the document tracked under `uri`;
    /// nothing for a document that is not tracked.
    pub fn hover(&self, uri: &String, position: Position) -> (r: Option<String>)
        requires
            self.wf(),
        ensures
            match self.document(uri@) {
                Some(d) => hover_result(encode_utf8(d.text@), d.semantic_index@, position, r),
                None => r is None,
            },
    {
        match self.get_document(uri) {
            None => None,
            Some(doc) => {
                proof {
                    let k = choose|k: int|
                        0 <= k < self.documents@.len() && self.documents@[k].0@ == uri@;
                    assert(self.documents@[k].1.semantic_index.wf());
                }
                hover_at(doc.text.as_str(), &doc.semantic_index, position)
            },
        }
    }
}

/// The workspace symbol table is the projection of the documents' indices:
/// for every document and name, a lookup lists that document exactly once
/// per symbol of that name it holds, with the symbol's kind, in id order,
/// and lists no document that is not tracked.
pub proof fn lemma_table_is_projection(c: &ProjectCache, uri: Seq<char>, name: Seq<char>)
    requires
        c.wf(),
    ensures
        kinds_at(c.locations(name), uri) == doc_kinds(c.document(uri), name),
{
}

/// A lookup of a name never lists a document that holds no symbol of that
/// name, nor one that is not tracked.
pub proof fn lemma_unlisted_without_symbol(c: &ProjectCache, uri: Seq<char>, name: Seq<char>)
    requires
        c.wf(),
        doc_kinds(c.document(uri), name).len() == 0,
    ensures
        forall|k: int| 0 <= k < c.locations(name).len() ==> c.locations(name)[k].0 != uri,
{
    lemma_kinds_at_empty(c.locations(name), uri);
}

} // verus!
