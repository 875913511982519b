//! A work-and-attempt log: one append-only log of facts, and the rules that
//! fold it into the state of a project.

pub mod text;
pub mod catalog;
pub mod json;
pub mod error;
pub mod views;
pub mod instant;
pub mod ids;
pub mod work;
pub mod attempt;
pub mod question;
pub mod observation;
pub mod event;
pub mod sorting;
pub mod graph;
pub mod project;
pub mod rules;
pub mod state;
pub mod downstream;
pub mod fold;
pub mod store;
pub mod change;
pub mod log;
pub mod laws;
pub mod record_laws;
pub mod effect_laws;
pub mod log_laws;
pub mod sessions;
pub mod change_laws;
pub mod wire;
pub mod codec;
pub mod invariants;
pub mod selection;
pub mod cli;
pub mod input;
pub mod documents;
pub mod picture;
pub mod status;
pub mod commands;
pub mod refresh;
pub mod observer;
pub mod config;
pub mod debug;
pub mod git;
pub mod projection;
pub mod ledger;
pub mod projection_laws;
pub mod document_laws;
pub mod body_laws;
pub mod status_laws;
pub mod text_laws;
pub mod plan_laws;
pub mod command_laws;
pub mod answer_laws;
pub mod input_laws;
pub mod observer_laws;
