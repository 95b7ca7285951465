pub mod shell;
pub mod terminal;
pub mod termcolor;
pub mod sgr;
pub mod digits;
pub mod chars;
pub mod keys;
pub mod project;
pub mod catalog;
pub mod scan;
pub mod diagnostics;
pub mod ranking;
pub mod textops;
pub mod commands;
pub mod markdown;
pub mod editors;
pub mod history;
pub mod git;
pub mod mcp;
pub mod theme;
pub mod launch;
pub mod ui;
pub mod diagram;
pub mod filetree;
pub mod workspace;
pub mod todo;
pub mod ask;
pub mod settings;
pub mod ordering;
pub mod selection;
pub mod paging;
pub mod pathname;

use vstd::prelude::*;

verus! {

} // verus!
