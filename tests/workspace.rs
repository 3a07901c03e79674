use powdr_lsp::cache::{ParsedDocument, ProjectCache};
use powdr_lsp::analyzer::build_semantic_index;
use powdr_lsp::parser::{
    convert_position, AnalyzedDoc, AsmFile, Error, MachineDecl, PilFile, Position, SourcePos,
};
use powdr_lsp::symbol::SymbolKind;

fn machines(names: &[&str]) -> AnalyzedDoc {
    AnalyzedDoc::ASM(AsmFile {
        machines: names
            .iter()
            .map(|n| MachineDecl {
                path: n.to_string(),
                short_name: n.to_string(),
                degree: None,
                callables: vec![],
                registers: vec![],
            })
            .collect(),
    })
}

fn pil(defs: &[&str]) -> AnalyzedDoc {
    AnalyzedDoc::PIL(PilFile {
        definitions: defs.iter().map(|d| d.to_string()).collect(),
        public_declarations: vec![],
        intermediate_columns: vec![],
        trait_impls: vec![],
    })
}

fn lookup(cache: &ProjectCache, name: &str) -> Vec<(String, SymbolKind)> {
    cache.get_symbol_locations(&name.to_string())
}

fn s(x: &str) -> String {
    x.to_string()
}

#[test]
fn replaced_text_drops_removed_name() {
    let mut cache = ProjectCache::new();
    cache.upsert(s("file:///a.src"), machines(&["Main"]), s("machine Main {}"), 1);
    assert_eq!(lookup(&cache, "Main").len(), 2);
    cache.upsert(s("file:///a.src"), machines(&["Other"]), s("machine Other {}"), 2);
    assert!(lookup(&cache, "Main").iter().all(|(uri, _)| uri != "file:///a.src"));
    assert!(lookup(&cache, "Main").is_empty());
    assert_eq!(
        lookup(&cache, "Other"),
        vec![(s("file:///a.src"), SymbolKind::Machine), (s("file:///a.src"), SymbolKind::Machine)]
    );
    assert_eq!(cache.get_document(&s("file:///a.src")).unwrap().version, 2);
}

#[test]
fn table_is_projection_after_interleaved_updates() {
    let mut cache = ProjectCache::new();
    cache.upsert(s("a"), pil(&["x", "y"]), s("x y x"), 0);
    cache.upsert(s("b"), pil(&["x"]), s("x"), 0);
    cache.upsert(s("c"), machines(&["x"]), s("machine x"), 0);
    assert_eq!(
        lookup(&cache, "x"),
        vec![
            (s("a"), SymbolKind::Definition),
            (s("a"), SymbolKind::Definition),
            (s("b"), SymbolKind::Definition),
            (s("c"), SymbolKind::Machine),
            (s("c"), SymbolKind::Machine),
        ]
    );
    cache.upsert(s("a"), pil(&["x"]), s("x"), 1);
    assert_eq!(
        lookup(&cache, "x"),
        vec![
            (s("b"), SymbolKind::Definition),
            (s("c"), SymbolKind::Machine),
            (s("c"), SymbolKind::Machine),
            (s("a"), SymbolKind::Definition),
        ]
    );
    assert!(lookup(&cache, "y").is_empty());
    cache.remove_document(&s("b"));
    assert!(cache.get_document(&s("b")).is_none());
    assert_eq!(
        lookup(&cache, "x"),
        vec![
            (s("c"), SymbolKind::Machine),
            (s("c"), SymbolKind::Machine),
            (s("a"), SymbolKind::Definition),
        ]
    );
    cache.remove_document(&s("c"));
    cache.remove_document(&s("a"));
    cache.remove_document(&s("never"));
    assert!(lookup(&cache, "x").is_empty());
    assert!(cache.get_document(&s("a")).is_none());
}

#[test]
fn update_document_replaces_wholesale() {
    let mut cache = ProjectCache::new();
    let text = s("machine Main {}");
    let doc = machines(&["Main"]);
    let index = build_semantic_index(&doc, &text);
    cache.update_document(
        s("u"),
        ParsedDocument { analyzed: doc.clone(), text: text.clone(), version: 3, semantic_index: index },
    );
    assert_eq!(cache.get_document(&s("u")).unwrap().text, text);
    let hover = cache.hover(&s("u"), Position { line: 0, character: 10 }).unwrap();
    assert!(hover.contains("Name: Main"));
    assert!(cache.hover(&s("u"), Position { line: 0, character: 2 }).is_none());
    assert!(cache.hover(&s("v"), Position { line: 0, character: 10 }).is_none());
    let empty = build_semantic_index(&pil(&[]), "");
    cache.update_document(
        s("u"),
        ParsedDocument { analyzed: pil(&[]), text: String::new(), version: 4, semantic_index: empty },
    );
    assert!(lookup(&cache, "Main").is_empty());
    assert_eq!(cache.get_document(&s("u")).unwrap().version, 4);
}

#[test]
fn unknown_name_and_empty_cache() {
    let cache = ProjectCache::new();
    assert!(lookup(&cache, "anything").is_empty());
    assert!(cache.get_document(&s("x")).is_none());
}

#[test]
fn offsets_to_positions() {
    let text = "ab\ncd\n\nefg";
    let p = convert_position(0, text);
    assert_eq!((p.line, p.character), (0, 0));
    let p = convert_position(4, text);
    assert_eq!((p.line, p.character), (1, 1));
    let p = convert_position(7, text);
    assert_eq!((p.line, p.character), (3, 0));
    let p = convert_position(10, text);
    assert_eq!((p.line, p.character), (3, 3));
    let p = convert_position(3, text);
    assert_eq!((p.line, p.character), (1, 0));
}

#[test]
fn analysis_errors() {
    let e = Error::new(s("unexpected token"), SourcePos::new(3, 7));
    assert_eq!(e.message(), "unexpected token");
    assert_eq!(*e.source_pos(), SourcePos { start: 3, end: 7 });
    let u = SourcePos::unknown();
    assert_eq!((u.start, u.end), (0, 0));
    let text: String = String::from(e);
    assert_eq!(text, "unexpected token");
}
