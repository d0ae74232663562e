pub mod captures;
pub mod file_search;
pub mod parse;
pub mod pattern;
pub mod quantifier;
pub mod regex;
