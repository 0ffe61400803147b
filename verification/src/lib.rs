//! Template repositories: templates described by their metadata, grouped into
//! repositories, and copied into a target directory with their placeholders
//! filled in.

pub mod action;
pub mod config;
pub mod context;
pub mod default_repository;
pub mod input;
pub mod repository;
pub mod template;
pub mod text;
