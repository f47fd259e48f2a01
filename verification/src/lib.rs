//! Core of a web-novel reader: book-source rules, rule evaluation and the
//! data that the reader keeps about books, chapters and reading progress.
pub mod text;
pub mod rule_split;
pub mod num;
pub mod selector;
pub mod index_rule;
pub mod models;
pub mod error;
pub mod base_parser;
pub mod path;
pub mod epub;
pub mod url_util;
pub mod book_info;
pub mod regex_util;
pub mod capture;
pub mod chapter;
pub mod search_result;
pub mod dom;
pub mod css;
pub mod js;
pub mod json;
pub mod rule_engine;
pub mod book_source_parser;
pub mod web_book;
pub mod api;
pub mod http;
pub mod db_row;
