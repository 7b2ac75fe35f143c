//! Extraction of a typed invoice from the loosely formatted HTML that a parts
//! vendor's ordering system exports.
//!
//! The pipeline is: characters, then markup tokens, then table rows of cell
//! texts, then label lookup and item rows, then a validated `Invoice`.
//! Every stage is a pure function with an exact contract over spec functions.

pub mod text;
pub mod numeral;
pub mod date;
pub mod markup;
pub mod invoice;
pub mod render;
pub mod laws;

pub use date::{Date, parse_date};
pub use invoice::{
    Field, Invoice, LineItem, ParseError, RowClass, StructuralFault, ValidationFault,
    classify_row, lookup_label, parse_invoice, parse_rows,
};
pub use markup::{Row, document_rows, tokenize, Token, TagKind};
pub use numeral::{Numeral, parse_numeral};
pub use render::render;
pub use text::{chars_of, normalize};
