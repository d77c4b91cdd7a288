//! A small theorem prover's front end and inference core, with every rule proved against its
//! contract.

pub mod acorn_type;
pub mod acorn_value;
pub mod active_set;
pub mod assumptions;
pub mod binding_map;
pub mod block;
pub mod build_cache;
pub mod claims;
pub mod clause;
pub mod code_gen_error;
pub mod command;
pub mod compilation;
pub mod completeness;
pub mod consistency;
pub mod contexts;
pub mod datatype_model;
pub mod datatypes;
pub mod debug;
pub mod declare;
pub mod denormalize;
pub mod elaborate;
pub mod environment;
pub mod evaluation;
pub mod expansion;
pub mod expression;
pub mod fact;
pub mod generics;
pub mod goals;
pub mod line_map;
pub mod literal;
pub mod logic;
pub mod meaning;
pub mod model;
pub mod names;
pub mod normalization;
pub mod normalizer;
pub mod normal_form;
pub mod notation;
pub mod numerals;
pub mod operators;
pub mod order;
pub mod passive_set;
pub mod printed;
pub mod project;
pub mod proof_info;
pub mod proof_step;
pub mod proposition;
pub mod prover;
pub mod readback;
pub mod refutation;
pub mod report;
pub mod reread;
pub mod round_trip;
pub mod soundness;
pub mod source;
pub mod spelling;
pub mod statement;
pub mod steps;
pub mod substitution;
pub mod table;
pub mod term;
pub mod term_graph;
pub mod text;
pub mod token;
pub mod type_claims;
pub mod type_code;
pub mod type_map;
pub mod typedef;
pub mod unifier;
pub mod verdict;
pub mod witnesses;
pub mod written;
