//! A Bible reader: verse texts are parsed into books, chapters and sections,
//! and each book is laid out as a page view with links to its neighbours.
pub mod bible;
pub mod bible_laws;
pub mod erv;
pub mod kjv;
pub mod strings;
pub mod traffic;
pub mod verse_line;
pub mod verse_text;
pub mod views;
pub mod web;
