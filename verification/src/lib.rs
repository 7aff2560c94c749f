//! Verified core of mdquery: SQL-like queries over the YAML front matter of
//! markdown files.
//!
//! The library holds the query language's own logic: preprocessing of the
//! query text and the mapping of the SQL syntax tree onto the query model
//! (`preprocess`, `sql`, `parser`, `number`), expression evaluation
//! (`filter`, `like`, `fuzzy`, `calendar`, `float`), sorting, grouping,
//! projection and de-duplication (`sort`, `engine`, `snippet`), the row and
//! value model (`row`, `value`, `text`), reading front matter into rows
//! (`yaml`, `frontmatter`, `reader`) and the rendering of results as tables
//! and CSV (`output`). The program around it walks directories, reads
//! files, reads float literals into doubles, and writes JSON.

pub mod text;
pub mod like;
pub mod preprocess;
pub mod float;
pub mod calendar;
pub mod value;
pub mod row;
pub mod ast;
pub mod fuzzy;
pub mod filter;
pub mod sort;
pub mod snippet;
pub mod engine;
pub mod sql;
pub mod number;
pub mod parser;
pub mod output;
pub mod yaml;
pub mod reader;
pub mod frontmatter;
