//! A small multi-user EPUB reading server: the path, session, ownership and
//! request-planning logic, with its contracts and proofs.

pub mod text;
pub mod paths;
pub mod layout;
pub mod store;
pub mod order;
pub mod crypto;
pub mod auth;
pub mod middleware;
pub mod api;
pub mod templates;
pub mod pages;
pub mod previous_path;
