use vstd::prelude::*;

use vstd::string::StringSliceAdditionalSpecFns;

use crate::symbol::DegreeInfo;

verus! {

/// A callable member of a machine (a function or an operation), with the
/// rendered names of its input and output parameters.
#[derive(Clone, Debug)]
pub struct CallableDecl {
    pub name: String,
    pub inputs: Vec<String>,
    pub outputs: Vec<String>,
}

/// A register of a machine with its declared type, rendered.
#[derive(Clone, Debug)]
pub struct RegisterDecl {
    pub name: String,
    pub ty: String,
}

/// A machine of an analyzed assembly file. `path` is its qualified name as
/// written relative to the root module, `short_name` the path's last segment.
#[derive(Clone, Debug)]
pub struct MachineDecl {
    pub path: String,
    pub short_name: String,
    pub degree: Option<DegreeInfo>,
    pub callables: Vec<CallableDecl>,
    pub registers: Vec<RegisterDecl>,
}

/// The named entities of an analyzed assembly file.
#[derive(Clone, Debug)]
pub struct AsmFile {
    pub machines: Vec<MachineDecl>,
}

/// The named entities of an analyzed constraint file; trait implementations
/// are listed by their declared path name.
#[derive(Clone, Debug)]
pub struct PilFile {
    pub definitions: Vec<String>,
    pub public_declarations: Vec<String>,
    pub intermediate_columns: Vec<String>,
    pub trait_impls: Vec<String>,
}

/// The result of semantic analysis, in one of its two variants.
#[derive(Clone, Debug)]
pub enum AnalyzedDoc {
    ASM(AsmFile),
    PIL(PilFile),
}

impl AnalyzedDoc {
    /// What indexing falls back to when analysis failed: a file with no entities.
    pub fn empty() -> (r: AnalyzedDoc)
        ensures
            r matches AnalyzedDoc::ASM(a) && a.machines@.len() == 0,
    {
        AnalyzedDoc::ASM(AsmFile { machines: Vec::new() })
    }
}

/// A line and a column (in bytes) in a document.
#[derive(Clone, Copy, Debug, PartialEq, Eq, Structural)]
pub struct Position {
    pub line: u32,
    pub character: u32,
}

/// A byte range that an analysis error points at.
#[derive(Clone, Copy, Debug, PartialEq, Eq, Structural)]
pub struct SourcePos {
    pub start: usize,
    pub end: usize,
}

impl SourcePos {
    pub fn new(start: usize, end: usize) -> (r: Self)
        ensures
            r.start == start,
            r.end == end,
    {
        SourcePos { start, end }
    }

    /// The position of an error that carries none.
    pub fn unknown() -> (r: Self)
        ensures
            r.start == 0,
            r.end == 0,
    {
        SourcePos { start: 0, end: 0 }
    }
}

/// An analysis error: a message and where it points.
#[derive(Debug)]
pub struct Error {
    pub message: String,
    pub source_pos: SourcePos,
}

impl Error {
    pub fn new(message: String, source_pos: SourcePos) -> (r: Self)
        ensures
            r.message == message,
            r.source_pos == source_pos,
    {
        Error { message, source_pos }
    }

    pub fn message(&self) -> (r: &String)
        ensures
            r == &self.message,
    {
        &self.message
    }

    pub fn source_pos(&self) -> (r: &SourcePos)
        ensures
            *r == self.source_pos,
    {
        &self.source_pos
    }
}

impl From<Error> for String {
    fn from(e: Error) -> (r: String) {
        e.message
    }
}

impl vstd::std_specs::convert::FromSpecImpl<Error> for String {
    open spec fn obeys_from_spec() -> bool {
        true
    }

    open spec fn from_spec(e: Error) -> String {
        e.message
    }
}

/// Number of newline bytes in `t`.
pub open spec fn newline_count(t: Seq<u8>) -> nat
    decreases t.len(),
{
    if t.len() == 0 {
        0
    } else {
        newline_count(t.drop_last()) + if t.last() == 10 {
            1nat
        } else {
            0nat
        }
    }
}

/// Position just after the last newline before `i`, or 0 on the first line.
pub open spec fn line_begin(t: Seq<u8>, i: int) -> int
    decreases i,
{
    if i <= 0 {
        0
    } else if t[i - 1] == 10 {
        i
    } else {
        line_begin(t, i - 1)
    }
}

/// Line and column of a byte offset; both are reduced to 32 bits.
pub fn convert_position(offset: usize, content: &str) -> (r: Position)
    requires
        offset <= content.spec_bytes().len(),
    ensures
        r.line == #[verifier::truncate] (newline_count(content.spec_bytes().subrange(0, offset as int)) as u32),
        r.character == #[verifier::truncate] ((offset - line_begin(content.spec_bytes(), offset as int)) as u32),
{
    let t = content.as_bytes();
    let mut lines: usize = 0;
    let mut begin: usize = 0;
    let mut i: usize = 0;
    while i < offset
        invariant
            offset <= t@.len(),
            i <= offset,
            begin <= i,
            lines <= i,
            lines == newline_count(t@.subrange(0, i as int)),
            begin == line_begin(t@, i as int),
        decreases offset - i,
    {
        assert(t@.subrange(0, i + 1).last() == t@[i as int]);
        assert(t@.subrange(0, i + 1).drop_last() =~= t@.subrange(0, i as int));
        if t[i] == 10u8 {
            lines = lines + 1;
            begin = i + 1;
        }
        i = i + 1;
    }
    assert(t@.subrange(0, i as int) == content.spec_bytes().subrange(0, offset as int));
    let line: u32 = #[verifier::truncate] (lines as u32);
    let character: u32 = #[verifier::truncate] ((offset - begin) as u32);
    Position { line, character }
}

} // verus!
