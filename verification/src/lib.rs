//! Verified pieces of the OPY-to-Workshop compiler.
mod strings;
pub mod text;

pub mod hir;
pub mod relocate;
pub mod control;
pub mod implicit;
pub mod diagnostics;
pub mod allocation;
pub mod macros;
pub mod macro_program;
pub mod macro_free;
pub mod workshop_text;
pub mod rule_names;
pub mod directives;
pub mod literal_slots;
pub mod manifest;
pub mod integration;
pub mod debug_text;
pub mod format_chunks;
pub mod chunk_restore;
pub mod settings;
pub mod implicit_program;
pub mod expr_queries;
pub mod declaration_sections;
pub mod element_counts;
pub mod lowering_queries;
pub mod pipeline;
pub mod translation_files;
pub mod reconstruction;
pub mod compression;
pub mod argument_origins;
pub mod declaration_plan;
pub mod declaration_slots;
pub mod loop_plan;
