//! The decisions of mailo's window, verified: what a remote image is admitted under, how a
//! Space is painted, how a printout is put on paper, and how a message's protection, source and
//! blocks are said.

pub mod blocks;
pub mod consent;
pub mod found;
pub mod ids;
pub mod image;
pub mod json;
pub mod looks;
pub mod menus;
pub mod motion;
pub mod move_to;
pub mod net;
pub mod page;
pub mod paint;
pub mod paper;
pub mod print;
pub mod reader;
pub mod receipt;
pub mod remote;
pub mod said;
pub mod sheet;
pub mod source;
pub mod text;
