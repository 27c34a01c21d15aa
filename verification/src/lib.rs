//! A tool-grounded agent harness for Path of Exile 1 and 2.
//!
//! The library holds everything that decides: the agent loop and its event
//! stream, the model protocol, the tools and the texts they read and write.
//! Sockets, files, processes and terminals stay with the program around it.

pub mod archive;
pub mod args;
pub mod build_xml;
pub mod cli;
pub mod codes;
pub mod commands;
pub mod config;
pub mod engine;
pub mod eval;
pub mod event;
pub mod held;
pub mod html;
pub mod http;
pub mod idle;
pub mod json;
pub mod league;
pub mod openai;
pub mod pob;
pub mod price;
pub mod prompted;
pub mod repeated;
pub mod session;
pub mod stream;
pub mod text;
pub mod tool;
pub mod toolkit;
pub mod wiki;
pub mod written;
