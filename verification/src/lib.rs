//! livefetch: the verified core of a fastfetch-style system information tool.
pub mod cli;
pub mod config;
pub mod image;
pub mod info;
pub mod layout;
pub mod terminal;
pub mod text;
pub mod logo;
