//! The decisions the command-line commands make: how a filter argument is
//! read and which records it keeps, and which archive a path belongs to.
pub mod books;
pub mod pages;
pub mod records;
pub mod songs;
pub mod waterways;
