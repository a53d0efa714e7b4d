//! The decisions of `rpool`, a manager of pools of repository clones.

pub mod checkout;
pub mod clones;
pub mod command;
pub mod complete;
pub mod devconfig;
pub mod doctor;
pub mod git;
pub mod init;
pub mod json;
pub mod migrate;
pub mod model;
pub mod names;
pub mod newclone;
pub mod path;
pub mod pr;
pub mod resolve;
pub mod search;
pub mod selection;
pub mod shell;
pub mod status;
pub mod sync;
pub mod table;
pub mod text;
