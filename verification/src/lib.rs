//! Verified core of a documentation and test generator: HTML escaping,
//! element assembly, syntax highlighting, tag queries and case bookkeeping.

pub mod text;
pub mod escape;
pub mod order;
pub mod element;
pub mod assembler;
pub mod search;
pub mod index;
pub mod syntax;
pub mod rust;
pub mod starlark;
pub mod imports;
pub mod json;
pub mod names;
pub mod validation;
pub mod cases;
pub mod visualize;
pub mod runtime;
pub mod literals;
pub mod interaction;
pub mod context;
pub mod highlight;
pub mod plan;
pub mod json_highlight;
