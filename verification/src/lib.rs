//! Verified core of a small note-taking web service: note text processing,
//! signed tokens, calendar and date labels, request decisions and storage.
pub mod chars;
pub mod num;
pub mod content;
pub mod auth;
pub mod calendar;
pub mod request;
pub mod db;
pub mod attachments;
pub mod forms;
pub mod render;
pub mod timeline;
pub mod pages;
