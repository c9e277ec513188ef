//! Verified core of ReInk, an inspection and maintenance tool for Epson printers.
use vstd::prelude::*;

pub mod arguments;
pub mod builtin;
pub mod channel;
pub mod command;
pub mod commands;
pub mod controller;
pub mod conversation;
pub mod d4_session;
pub mod database;
pub mod dialog;
pub mod discovery;
pub mod driver;
pub mod epson;
pub mod fields;
pub mod filter;
pub mod gui;
pub mod identity;
pub mod items;
pub mod json;
pub mod link;
pub mod native;
pub mod offline;
pub mod operation;
pub mod packet;
pub mod pages;
pub mod paths;
pub mod platform;
pub mod reassembly;
pub mod report;
pub mod scan;
pub mod screen;
pub mod selected;
pub mod session;
pub mod summary;
pub mod text;
pub mod text_map;
pub mod traffic;
pub mod transaction;
pub mod view;

verus! {

} // verus!
