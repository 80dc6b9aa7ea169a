//! Code generation from text templates.
//!
//! A template text holds simple placeholders (`<<<key>>>`), implementation
//! areas (`@@@ >>> name` ... `@@@ <<<`) expanded once per parameter set at
//! their marks (`>>>>>>>>>> name`), and display blocks (`??? >>> name` ...
//! `??? <<<`) kept only when their name is a parameter.
pub mod basic;
pub mod block_laws;
pub mod expand;
pub mod laws;
pub mod params;
pub mod substitution;
pub mod template;
pub mod text;

pub use expand::{LineKind, TemplateLine};
pub use params::Params;
pub use template::Template;
