//! Decision logic of a comic and book server's HTTP API.
pub mod actuator;
pub mod announcements;
pub mod atom;
pub mod claim;
pub mod client_settings;
pub mod collections;
pub mod datetime;
pub mod error;
pub mod filesystem;
pub mod fonts;
pub mod history;
pub mod kobo;
pub mod koreader;
pub mod libraries;
pub mod login;
pub mod media;
pub mod mosaic;
pub mod oauth2;
pub mod opds_v1;
pub mod opds_v2;
pub mod page_hashes;
pub mod pages;
pub mod progress;
pub mod search;
pub mod sorting;
pub mod text;
pub mod thumbnails;
pub mod url;
