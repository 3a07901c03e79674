use powdr_lsp::analyzer::{analyze_asm, analyze_pil, build_semantic_index};
use powdr_lsp::hover::{get_hover_content, position_to_offset, HoverProvider};
use powdr_lsp::parser::{
    AnalyzedDoc, AsmFile, CallableDecl, MachineDecl, PilFile, Position, RegisterDecl,
};
use powdr_lsp::span::Span;
use powdr_lsp::symbol::{DegreeInfo, SemanticIndex, Symbol, SymbolDetails, SymbolKind};

fn machine(path: &str, short: &str, degree: Option<DegreeInfo>) -> MachineDecl {
    MachineDecl {
        path: path.to_string(),
        short_name: short.to_string(),
        degree,
        callables: vec![],
        registers: vec![],
    }
}

fn main_with_x() -> AnalyzedDoc {
    let mut m = machine("Main", "Main", None);
    m.registers.push(RegisterDecl { name: "X".to_string(), ty: String::new() });
    AnalyzedDoc::ASM(AsmFile { machines: vec![m] })
}

fn at(line: u32, character: u32) -> Position {
    Position { line, character }
}

fn summary(index: &SemanticIndex) -> Vec<(usize, usize, String, SymbolKind)> {
    index
        .get_all_ranges()
        .iter()
        .map(|(span, s)| (span.start, span.end, s.name.clone(), s.kind))
        .collect()
}

#[test]
fn machine_and_register_scenario() {
    let text = "machine Main { reg X; }";
    let index = build_semantic_index(&main_with_x(), text);
    let all = summary(&index);
    assert!(all.contains(&(8, 12, "Main".to_string(), SymbolKind::Machine)));
    assert!(all.contains(&(19, 20, "X".to_string(), SymbolKind::Register)));

    let hover = HoverProvider::new(text.to_string(), main_with_x(), index);
    let content = hover.get_hover(at(0, 8)).unwrap();
    assert!(content.starts_with("### Machine"));
    assert!(content.contains("Main"));
    assert_eq!(hover.get_hover(at(0, 7)), None);
    assert_eq!(hover.get_hover(at(0, 12)), None);
    let reg = hover.get_hover(at(0, 19)).unwrap();
    assert_eq!(reg, "### Register\n\nName: X\n");
}

#[test]
fn commented_name_is_not_indexed() {
    let text = "// Main is unused\nmachine Main {}";
    let doc = AnalyzedDoc::ASM(AsmFile { machines: vec![machine("Main", "Main", None)] });
    let index = build_semantic_index(&doc, text);
    for (start, end, name, kind) in summary(&index) {
        assert_eq!((start, end), (26, 30));
        assert_eq!(name, "Main");
        assert_eq!(kind, SymbolKind::Machine);
    }
    assert!(index.find_symbol_at_position(3).is_none());
    assert_eq!(index.find_symbol_at_position(27).unwrap().name, "Main");
}

#[test]
fn every_symbol_spans_its_name() {
    let text = "mod::Arith\nmachine Arith {\n  reg pc[@pc];\n  reg A;\n  function add a, b -> c { }\n}\n// add A\nArith A pc add";
    let mut m = machine("mod::Arith", "Arith", Some(DegreeInfo { min: Some(8), max: Some(10) }));
    m.registers.push(RegisterDecl { name: "pc".to_string(), ty: "@pc".to_string() });
    m.registers.push(RegisterDecl { name: "A".to_string(), ty: String::new() });
    m.callables.push(CallableDecl {
        name: "add".to_string(),
        inputs: vec!["a".to_string(), "b".to_string()],
        outputs: vec!["c".to_string()],
    });
    let doc = AnalyzedDoc::ASM(AsmFile { machines: vec![m] });
    let index = build_semantic_index(&doc, text);
    let all = summary(&index);
    assert!(!all.is_empty());
    for (start, end, name, _) in &all {
        assert_eq!(&text[*start..*end], name.as_str());
    }
    let names: Vec<&str> = all.iter().map(|e| e.2.as_str()).collect();
    assert_eq!(
        names,
        vec!["mod::Arith", "Arith", "Arith", "add", "add", "pc", "pc", "pc", "A", "A"]
    );
    assert_eq!(all[0].0, 0);
    assert_eq!(all[1].0, 19);
    assert_eq!(all[2].0, 91);
    assert_eq!(all[6].0, 37);
}

#[test]
fn point_query_covers_validated_spans_only() {
    let text = "x // y\n// y\ny";
    let doc = AnalyzedDoc::PIL(PilFile {
        definitions: vec!["y".to_string()],
        public_declarations: vec![],
        intermediate_columns: vec![],
        trait_impls: vec![],
    });
    let index = build_semantic_index(&doc, text);
    assert_eq!(
        summary(&index),
        vec![
            (5, 6, "y".to_string(), SymbolKind::Definition),
            (12, 13, "y".to_string(), SymbolKind::Definition),
        ]
    );
    assert!(index.find_symbol_at_position(5).is_some());
    assert!(index.find_symbol_at_position(10).is_none());
    assert!(index.find_symbol_at_position(12).is_some());
    assert!(index.find_symbol_at_position(6).is_none());
    assert!(index.find_symbol_at_position(usize::MAX).is_none());
}

#[test]
fn rebuilding_gives_identical_contents() {
    let text = "machine Main { reg X; reg Y; } Main X";
    let mut m = machine("Main", "Main", Some(DegreeInfo { min: Some(4), max: None }));
    m.registers.push(RegisterDecl { name: "X".to_string(), ty: "field".to_string() });
    m.registers.push(RegisterDecl { name: "Y".to_string(), ty: String::new() });
    let doc = AnalyzedDoc::ASM(AsmFile { machines: vec![m] });
    let first = build_semantic_index(&doc, text);
    let second = build_semantic_index(&doc, text);
    assert_eq!(summary(&first), summary(&second));
    let render = |i: &SemanticIndex| -> Vec<String> {
        i.get_all_ranges().iter().map(|(_, s)| get_hover_content(s)).collect()
    };
    assert_eq!(render(&first), render(&second));
}

#[test]
fn pil_kinds_in_order() {
    let text = "let d; public p; col i; impl T";
    let doc = PilFile {
        definitions: vec!["d".to_string()],
        public_declarations: vec!["p".to_string()],
        intermediate_columns: vec!["i".to_string()],
        trait_impls: vec!["T".to_string()],
    };
    let mut index = SemanticIndex::new();
    analyze_pil(&doc, &mut index, text);
    assert_eq!(
        summary(&index),
        vec![
            (4, 5, "d".to_string(), SymbolKind::Definition),
            (14, 15, "p".to_string(), SymbolKind::Public),
            (21, 22, "i".to_string(), SymbolKind::Intermediate),
            (29, 30, "T".to_string(), SymbolKind::TraitImpl),
        ]
    );
}

#[test]
fn asm_appends_to_existing_index() {
    let mut index = SemanticIndex::new();
    let id = index.add_symbol(Symbol {
        kind: SymbolKind::Definition,
        span: Span { start: 0, end: 1 },
        name: "z".to_string(),
        details: SymbolDetails::Definition,
    });
    assert_eq!(id, 0);
    let file = AsmFile { machines: vec![machine("M", "M", None)] };
    analyze_asm(&file, &mut index, "machine M");
    assert_eq!(summary(&index).len(), 3);
    assert_eq!(summary(&index)[1], (8, 9, "M".to_string(), SymbolKind::Machine));
}

#[test]
fn empty_analysis_gives_empty_index() {
    let index = build_semantic_index(&AnalyzedDoc::empty(), "machine Main {}");
    assert!(index.get_all_ranges().is_empty());
    assert!(index.find_symbol_at_position(9).is_none());
}

#[test]
fn ids_follow_insertion_and_duplicates_are_kept() {
    let mut index = SemanticIndex::new();
    let mk = |name: &str, start: usize, end: usize| Symbol {
        kind: SymbolKind::Definition,
        span: Span { start, end },
        name: name.to_string(),
        details: SymbolDetails::Definition,
    };
    assert_eq!(index.add_symbol(mk("abc", 10, 13)), 0);
    assert_eq!(index.add_symbol(mk("abc", 10, 13)), 1);
    assert_eq!(index.add_symbol(mk("q", 2, 3)), 2);
    let all = summary(&index);
    assert_eq!(all.len(), 3);
    assert_eq!(all[2], (2, 3, "q".to_string(), SymbolKind::Definition));
    assert_eq!(index.find_symbol_at_position(2).unwrap().name, "q");
    assert_eq!(index.find_symbol_at_position(12).unwrap().name, "abc");
    assert!(index.find_symbol_at_position(13).is_none());
}

#[test]
fn overlapping_spans_resolve_to_earliest() {
    let mut index = SemanticIndex::new();
    let mk = |name: &str, start: usize, end: usize| Symbol {
        kind: SymbolKind::Definition,
        span: Span { start, end },
        name: name.to_string(),
        details: SymbolDetails::Definition,
    };
    index.add_symbol(mk("late", 5, 20));
    index.add_symbol(mk("early", 2, 30));
    index.add_symbol(mk("short", 2, 8));
    assert_eq!(index.find_symbol_at_position(6).unwrap().name, "short");
    assert_eq!(index.find_symbol_at_position(10).unwrap().name, "early");
}

#[test]
fn hover_texts() {
    let sym = |kind, name: &str, details| Symbol {
        kind,
        span: Span { start: 0, end: name.len() },
        name: name.to_string(),
        details,
    };
    let machine_deg = |min, max| {
        get_hover_content(&sym(
            SymbolKind::Machine,
            "Main",
            SymbolDetails::Machine { degree: Some(DegreeInfo { min, max }) },
        ))
    };
    assert_eq!(machine_deg(Some(8), Some(10)), "### Machine\n\nName: Main\nDegree: Min:8, Max:10\n");
    assert_eq!(machine_deg(Some(1024), Some(1024)), "### Machine\n\nName: Main\nDegree: 1024\n");
    assert_eq!(machine_deg(None, Some(0)), "### Machine\n\nName: Main\nDegree: 0\n");
    assert_eq!(
        machine_deg(Some(18446744073709551615), None),
        "### Machine\n\nName: Main\nDegree: 18446744073709551615\n"
    );
    assert_eq!(machine_deg(None, None), "### Machine\n\nName: Main\n\n");
    assert_eq!(
        get_hover_content(&sym(SymbolKind::Machine, "Main", SymbolDetails::Machine { degree: None })),
        "### Machine\n\nName: Main\n\n"
    );
    assert_eq!(
        get_hover_content(&sym(
            SymbolKind::Register,
            "pc",
            SymbolDetails::Register { type_info: "@pc".to_string() }
        )),
        "### Register\n\nName: pc\nType: @pc\n"
    );
    assert_eq!(
        get_hover_content(&sym(
            SymbolKind::Callable,
            "add",
            SymbolDetails::Callable { inputs: "a, b".to_string(), outputs: "c".to_string() }
        )),
        "### Instruction\n\nName: add\n\nInputs: a, b\n\nOutputs: c\n"
    );
    assert_eq!(
        get_hover_content(&sym(SymbolKind::Definition, "d", SymbolDetails::Definition)),
        "### Definition\n\nName: d\n"
    );
    assert_eq!(
        get_hover_content(&sym(SymbolKind::Public, "p", SymbolDetails::Public)),
        "### Public\n\nName: p\n"
    );
    assert_eq!(
        get_hover_content(&sym(SymbolKind::Intermediate, "i", SymbolDetails::Intermediate)),
        "### Intermediate\n\nName: i\n"
    );
    assert_eq!(
        get_hover_content(&sym(SymbolKind::TraitImpl, "T", SymbolDetails::TraitImpl)),
        "### Trait Implementation\n\nName: T\n"
    );
    assert_eq!(
        get_hover_content(&sym(SymbolKind::Public, "x", SymbolDetails::Definition)),
        "### Symbol\n\nName: x\n"
    );
}

#[test]
fn callable_parameters_are_joined() {
    let text = "machine M { operation op a, b, c -> d; }";
    let mut m = machine("M", "M", None);
    m.callables.push(CallableDecl {
        name: "op".to_string(),
        inputs: vec!["a".to_string(), "b".to_string(), "c".to_string()],
        outputs: vec![],
    });
    let doc = AnalyzedDoc::ASM(AsmFile { machines: vec![m] });
    let hover = HoverProvider::new(text.to_string(), doc.clone(), build_semantic_index(&doc, text));
    assert_eq!(
        hover.get_hover(at(0, 22)).unwrap(),
        "### Instruction\n\nName: op\n\nInputs: a, b, c\n\nOutputs: \n"
    );
}

#[test]
fn positions_to_offsets() {
    let text = "ab\ncde\r\nf\n";
    assert_eq!(position_to_offset(text, at(0, 0)), Some(0));
    assert_eq!(position_to_offset(text, at(0, 5)), Some(5));
    assert_eq!(position_to_offset(text, at(1, 1)), Some(4));
    assert_eq!(position_to_offset(text, at(2, 0)), Some(7));
    assert_eq!(position_to_offset(text, at(3, 0)), None);
    assert_eq!(position_to_offset("", at(0, 0)), None);
    assert_eq!(position_to_offset("x", at(0, 4000000000)), Some(4000000000));
    assert_eq!(position_to_offset("a\n\nb", at(2, 0)), Some(3));
}

#[test]
fn hover_past_last_line_is_nothing() {
    let text = "machine Main {}";
    let doc = AnalyzedDoc::ASM(AsmFile { machines: vec![machine("Main", "Main", None)] });
    let hover = HoverProvider::new(text.to_string(), doc.clone(), build_semantic_index(&doc, text));
    assert_eq!(hover.get_hover(at(1, 8)), None);
    assert!(hover.get_hover(at(0, 9)).is_some());
}
