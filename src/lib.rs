//! Turns ordinary CSS stylesheets into spell notation: a verified scanner over
//! a CSS token stream that rebuilds selector context and expands each rule's
//! declarations into deduplicated spell strings keyed by selector name.

pub mod text;
pub mod spell_map;
pub mod lexer;
pub mod scan;
pub mod rule;
pub mod transmute;
pub mod source;
