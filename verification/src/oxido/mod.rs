pub mod word;
pub mod span;
pub mod input_file;
pub mod token;
pub mod token_tree;
pub mod format_string;
