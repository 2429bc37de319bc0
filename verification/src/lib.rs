//! Core logic of the Tonique digital audio workstation: the project state
//! (tracks, clips, selection, solo, undo/redo history), the track graph of the
//! audio engine, the file browser tree and the user configuration.

pub mod ids;
pub mod track;
pub mod command;
pub mod service;
pub mod action;
pub mod state;
pub mod laws;
pub mod config;
pub mod left_panel;
pub mod filepicker;
pub mod engine;
pub mod player;
pub mod engine_laws;
pub mod ui;
