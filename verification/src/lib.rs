//! Lowering of modules whose exports are synthesized rather than written.
//!
//! A JSON, text, base64 or dataurl module arrives as a single expression statement. [`lowering`]
//! turns it into `module.exports = <value>`, into `export default <value>`, or, for a JSON object,
//! into one variable and one export per key. [`generate_lazy_export`] does so for all modules of
//! a bundle and records what they export in the tables of the link stage, with [`json_exports`]
//! for the JSON objects.
//!
//! What holds of every lowered module is stated in [`lowering_laws`], and what holds of every
//! linked one in [`linking_laws`].

pub mod ast;
pub mod bindings;
pub mod generate_lazy_export;
pub mod json_exports;
pub mod link_stage;
pub mod linking_laws;
pub mod lowering;
pub mod lowering_laws;
pub mod module;
pub mod semantic_stats;
pub mod stmt_info;
pub mod symbols;
