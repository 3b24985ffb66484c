//! Option loader for an image-to-document conversion tool.
//!
//! The library resolves caller-supplied flags over documented defaults into a
//! `Configuration`-style record (`Options`), and orders filename lists with a
//! numeric comparator: each filename is keyed by the unsigned integer formed
//! from its decimal digits, so `page2.png` sorts before `page10.png`.

pub mod numeric_key;
pub mod options;
pub mod ordering;
