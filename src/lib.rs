pub mod analyzer;
pub mod cache;
pub mod hover;
pub mod locator;
pub mod parser;
pub mod span;
pub mod symbol;

pub use analyzer::build_semantic_index;
pub use cache::{ParsedDocument, ProjectCache};
pub use hover::HoverProvider;
pub use locator::{is_identifier_char, PositionTracker};
pub use parser::{
    AnalyzedDoc, AsmFile, CallableDecl, Error, MachineDecl, PilFile, Position, RegisterDecl,
    SourcePos,
};
pub use span::{HasSpan, Span};
pub use symbol::{DegreeInfo, SemanticIndex, Symbol, SymbolDetails, SymbolId, SymbolKind};
