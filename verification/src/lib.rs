//! Spec-lock: ties Rust functions to the formulas of a written specification.
pub mod alike;
pub mod ast;
pub mod attributes;
pub mod bindings;
pub mod cache;
pub mod chars;
pub mod codegen;
pub mod command;
pub mod condition;
pub mod contract_math;
pub mod contracts;
pub mod coverage;
pub mod drift;
pub mod filters;
pub mod formula_checks;
pub mod formula_dep_graph;
pub mod json;
pub mod lexer;
pub mod lock_args;
pub mod meaning;
pub mod numbers;
pub mod orange_paper;
pub mod output;
pub mod paths;
pub mod patterns;
pub mod report;
pub mod rust_syntax;
pub mod section_order;
pub mod sorting;
pub mod source;
pub mod spec_coverage;
pub mod spec_enrich;
pub mod spec_extract;
pub mod spec_lock;
pub mod spec_text;
pub mod spec_types;
pub mod static_checker;
pub mod term;
pub mod text;
pub mod text_order;
pub mod tree;
pub mod values;
pub mod vars;
pub mod verify;
pub mod z3_rules;
pub mod z3_sorts;
pub mod z3_tables;
pub mod z3_translator;
pub mod z3_verifier;
