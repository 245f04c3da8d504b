//! A reusable tokenization session around the vaporetto boundary-prediction engine:
//! optional full-width normalization, boundary-constraint post-filters, interned output
//! strings, and token lists with character spans and tags.

pub mod engine;
pub mod filter;
pub mod interner;
pub mod render;
pub mod session;
pub mod tokens;

pub use session::{ConstructionError, Vaporetto};
pub use tokens::{IndexError, Token, TokenIterator, TokenList};
