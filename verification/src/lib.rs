//! Pipsqueak's judgement: what a desktop pet may say about a coding agent.

pub mod agent;
pub mod attention;
pub mod chats;
pub mod chats_laws;
pub mod cli;
pub mod codex;
pub mod codex_index;
pub mod codex_index_laws;
pub mod codex_laws;
pub mod codex_live;
pub mod codex_stream;
pub mod codex_stream_laws;
pub mod command_laws;
pub mod control;
pub mod desktop;
pub mod desktop_laws;
pub mod doctor;
pub mod doctor_laws;
pub mod hook;
pub mod hook_card;
pub mod hook_laws;
pub mod hook_words;
pub mod hotkey;
pub mod install;
pub mod install_laws;
pub mod json;
pub mod json_laws;
pub mod log;
pub mod log_laws;
pub mod names;
pub mod narration;
pub mod narration_laws;
pub mod overlay;
pub mod overlay_laws;
pub mod process;
pub mod process_laws;
pub mod project;
pub mod project_laws;
pub mod risk;
pub mod risk_laws;
pub mod state;
pub mod state_laws;
pub mod strings;
pub mod table;
pub mod text;
pub mod text_laws;
