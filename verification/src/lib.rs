//! Static discovery of the module-dependency closure of a Lua project:
//! scanning token streams for `require` call sites, statically evaluating
//! each call's argument to a literal path, resolving that literal against
//! the importing file's directory, and driving the same analysis over every
//! newly discovered file until the transitive dependency set is complete.

pub mod closure;
pub mod lex;
pub mod paths;
pub mod registers;
pub mod scan;
pub mod token;

pub use closure::ClosureBuilder;
pub use closure::Diagnostic;
pub use closure::FatalError;
pub use scan::scan_imports;
pub use scan::ScanResult;
pub use token::Token;
pub use token::TokenKind;
