use vstd::prelude::*;

use vstd::string::StringSliceAdditionalSpecFns;
use vstd::utf8::encode_utf8;

use crate::parser::{AnalyzedDoc, Position};
use crate::symbol::{
    first_in_order, DegreeInfo, DetailsView, SemanticIndex, Symbol, SymbolDetails, SymbolKind,
    SymbolView,
};

verus! {

pub open spec fn digit_char(d: nat) -> char {
    if d == 0 {
        '0'
    } else if d == 1 {
        '1'
    } else if d == 2 {
        '2'
    } else if d == 3 {
        '3'
    } else if d == 4 {
        '4'
    } else if d == 5 {
        '5'
    } else if d == 6 {
        '6'
    } else if d == 7 {
        '7'
    } else if d == 8 {
        '8'
    } else {
        '9'
    }
}

/// Base-ten digits of `n`, most significant first, without sign or padding.
pub open spec fn decimal(n: nat) -> Seq<char>
    decreases n,
{
    if n < 10 {
        seq![digit_char(n)]
    } else {
        decimal(n / 10).push(digit_char(n % 10))
    }
}

/// Relies on `u64`'s `Display` (through `to_string`): the number in base ten.
#[verifier::external_body]
fn u64_text(n: u64) -> (r: String)
    ensures
        r@ == decimal(n as nat),
{
    n.to_string()
}

/// Number of `"\r\n"` pairs in `t`.
pub open spec fn crlf_count(t: Seq<u8>) -> nat
    decreases t.len(),
{
    if t.len() == 0 {
        0
    } else {
        crlf_count(t.drop_last()) + if t.len() >= 2 && t.last() == 10 && t[t.len() - 2] == 13 {
            1nat
        } else {
            0nat
        }
    }
}

/// Where line `l` begins, scanning from `i` with `seen` newlines already
/// passed; -1 when the text has fewer than `l` newlines.
pub open spec fn scan_line(t: Seq<u8>, l: int, i: int, seen: int) -> int
    decreases t.len() - i,
{
    if seen >= l {
        i
    } else if i < 0 || i >= t.len() {
        -1
    } else {
        scan_line(t, l, i + 1, seen + if t[i] == 10 {
            1int
        } else {
            0int
        })
    }
}

/// The byte offset that a line and column stand for: the lengths of the lines
/// before it, each without its line ending but plus one, then the column.
/// Nothing for a line past the last one (a line ending ends a line and does not
/// start one), or an offset beyond `usize`.
pub open spec fn position_offset(t: Seq<u8>, line: u32, character: u32) -> Option<usize> {
    let s = scan_line(t, line as int, 0, 0);
    if s < 0 || s >= t.len() {
        None
    } else if s - crlf_count(t.subrange(0, s)) + character > usize::MAX {
        None
    } else {
        Some((s - crlf_count(t.subrange(0, s)) + character) as usize)
    }
}

pub open spec fn degree_text(d: Option<DegreeInfo>) -> Seq<char> {
    match d {
        None => seq![],
        Some(info) => match (info.min, info.max) {
            (Some(min), Some(max)) => if min == max {
                "Degree: "@ + decimal(min as nat)
            } else {
                "Degree: Min:"@ + decimal(min as nat) + ", Max:"@ + decimal(max as nat)
            },
            (Some(v), None) => "Degree: "@ + decimal(v as nat),
            (None, Some(v)) => "Degree: "@ + decimal(v as nat),
            (None, None) => seq![],
        },
    }
}

/// The hover text of a symbol: a heading for its kind, its name, and for
/// machines, registers and callables their details.
pub open spec fn render(s: SymbolView) -> Seq<char> {
    match (s.kind, s.details) {
        (SymbolKind::Machine, DetailsView::Machine { degree }) => "### Machine\n\nName: "@ + s.name
            + "\n"@ + degree_text(degree) + "\n"@,
        (SymbolKind::Register, DetailsView::Register { type_info }) => if type_info.len() == 0 {
            "### Register\n\nName: "@ + s.name + "\n"@
        } else {
            "### Register\n\nName: "@ + s.name + "\nType: "@ + type_info + "\n"@
        },
        (SymbolKind::Callable, DetailsView::Callable { inputs, outputs }) => "### Instruction\n\nName: "@
            + s.name + "\n\nInputs: "@ + inputs + "\n\nOutputs: "@ + outputs + "\n"@,
        (SymbolKind::Definition, DetailsView::Definition) => "### Definition\n\nName: "@ + s.name
            + "\n"@,
        (SymbolKind::Public, DetailsView::Public) => "### Public\n\nName: "@ + s.name + "\n"@,
        (SymbolKind::Intermediate, DetailsView::Intermediate) => "### Intermediate\n\nName: "@
            + s.name + "\n"@,
        (SymbolKind::TraitImpl, DetailsView::TraitImpl) => "### Trait Implementation\n\nName: "@
            + s.name + "\n"@,
        _ => "### Symbol\n\nName: "@ + s.name + "\n"@,
    }
}

/// The byte offset of a line and column in `text`, as `position_offset` gives it.
pub fn position_to_offset(text: &str, position: Position) -> (r: Option<usize>)
    ensures
        r == position_offset(text.spec_bytes(), position.line, position.character),
{
    let t = text.as_bytes();
    let n = t.len();
    let line = position.line as usize;
    let mut i: usize = 0;
    let mut seen: usize = 0;
    let mut crlf: usize = 0;
    while seen < line && i < n
        invariant
            n == t@.len(),
            line == position.line as usize,
            i <= n,
            seen <= i,
            crlf <= i,
            seen <= line,
            crlf == crlf_count(t@.subrange(0, i as int)),
            scan_line(t@, line as int, 0, 0) == scan_line(t@, line as int, i as int, seen as int),
        decreases n - i,
    {
        let ghost sub = t@.subrange(0, i + 1);
        assert(sub.drop_last() =~= t@.subrange(0, i as int));
        assert(sub.last() == t@[i as int]);
        if i >= 1 {
            assert(sub[i - 1] == t@[i - 1]);
        }
        if t[i] == 10u8 {
            seen = seen + 1;
            if i >= 1 && t[i - 1] == 13u8 {
                crlf = crlf + 1;
            }
        }
        i = i + 1;
    }
    if seen < line || i >= n {
        return None;
    }
    assert(crlf_count(t@.subrange(0, i as int)) <= i);
    let base = i - crlf;
    if position.character as usize > usize::MAX - base {
        return None;
    }
    Some(base + position.character as usize)
}

fn degree_string(d: Option<DegreeInfo>) -> (r: String)
    ensures
        r@ == degree_text(d),
{
    match d {
        None => String::new(),
        Some(info) => match (info.min, info.max) {
            (Some(min), Some(max)) => if min == max {
                String::from_str("Degree: ").concat(u64_text(min).as_str())
            } else {
                String::from_str("Degree: Min:").concat(u64_text(min).as_str()).concat(
                    ", Max:",
                ).concat(u64_text(max).as_str())
            },
            (Some(v), None) => String::from_str("Degree: ").concat(u64_text(v).as_str()),
            (None, Some(v)) => String::from_str("Degree: ").concat(u64_text(v).as_str()),
            (None, None) => String::new(),
        },
    }
}

/// Renders a symbol's hover text.
pub fn get_hover_content(symbol: &Symbol) -> (r: String)
    ensures
        r@ == render(symbol@),
{
    let name = symbol.name.as_str();
    match (&symbol.kind, &symbol.details) {
        (SymbolKind::Machine, SymbolDetails::Machine { degree }) => String::from_str(
            "### Machine\n\nName: ",
        ).concat(name).concat("\n").concat(degree_string(*degree).as_str()).concat("\n"),
        (SymbolKind::Register, SymbolDetails::Register { type_info }) => if type_info.as_str().unicode_len()
            == 0 {
            String::from_str("### Register\n\nName: ").concat(name).concat("\n")
        } else {
            String::from_str("### Register\n\nName: ").concat(name).concat("\nType: ").concat(
                type_info.as_str(),
            ).concat("\n")
        },
        (SymbolKind::Callable, SymbolDetails::Callable { inputs, outputs }) => String::from_str(
            "### Instruction\n\nName: ",
        ).concat(name).concat("\n\nInputs: ").concat(inputs.as_str()).concat(
            "\n\nOutputs: ",
        ).concat(outputs.as_str()).concat("\n"),
        (SymbolKind::Definition, SymbolDetails::Definition) => String::from_str(
            "### Definition\n\nName: ",
        ).concat(name).concat("\n"),
        (SymbolKind::Public, SymbolDetails::Public) => String::from_str(
            "### Public\n\nName: ",
        ).concat(name).concat("\n"),
        (SymbolKind::Intermediate, SymbolDetails::Intermediate) => String::from_str(
            "### Intermediate\n\nName: ",
        ).concat(name).concat("\n"),
        (SymbolKind::TraitImpl, SymbolDetails::TraitImpl) => String::from_str(
            "### Trait Implementation\n\nName: ",
        ).concat(name).concat("\n"),
        _ => String::from_str("### Symbol\n\nName: ").concat(name).concat("\n"),
    }
}

/// What a hover at `position` shows, if anything, given the index `idx` of
/// the text `t`: nothing where the position is off the text or no span
/// covers it, otherwise the rendering of a covering symbol that comes first
/// by start and end.
pub open spec fn hover_result(t: Seq<u8>, idx: Seq<SymbolView>, position: Position, r: Option<String>) -> bool {
    match position_offset(t, position.line, position.character) {
        None => r is None,
        Some(off) => {
            &&& (r is None <==> forall|k: int| 0 <= k < idx.len() ==> !idx[k].span.contains(off as int))
            &&& (r matches Some(c) ==> exists|k: int|
                0 <= k < idx.len() && idx[k].span.contains(off as int) && c@ == render(idx[k])
                    && forall|j: int|
                    0 <= j < idx.len() && idx[j].span.contains(off as int) ==> first_in_order(
                        idx[k].span,
                        idx[j].span,
                    ))
        },
    }
}

/// Answers hover requests on one document.
pub struct HoverProvider {
    pub text: String,
    pub analyzed: AnalyzedDoc,
    pub semantic_index: SemanticIndex,
}

impl HoverProvider {
    pub fn new(text: String, analyzed: AnalyzedDoc, semantic_index: SemanticIndex) -> (r: Self)
        ensures
            r.text == text,
            r.analyzed == analyzed,
            r.semantic_index == semantic_index,
    {
        HoverProvider { text, analyzed, semantic_index }
    }

    pub fn get_hover(&self, position: Position) -> (r: Option<String>)
        requires
            self.semantic_index.wf(),
        ensures
            hover_result(encode_utf8(self.text@), self.semantic_index@, position, r),
    {
        hover_at(self.text.as_str(), &self.semantic_index, position)
    }
}

/// The hover text at `position` of a document with text `text` and index `index`.
pub fn hover_at(text: &str, index: &SemanticIndex, position: Position) -> (r: Option<String>)
    requires
        index.wf(),
    ensures
        hover_result(text.spec_bytes(), index@, position, r),
{
    let offset = match position_to_offset(text, position) {
        Some(off) => off,
        None => return None,
    };
    match index.find_symbol_at_position(offset) {
        None => None,
        Some(symbol) => {
            let content = get_hover_content(symbol);
            Some(content)
        },
    }
}

} // verus!
