//! Verified core of an image-processing web service: request
//! authorization, configuration assembly, media-type and file-name rules,
//! image discovery in pages and the shapes of the service's replies.

pub mod text;
pub mod media;
pub mod auth;
pub mod config;
pub mod models;
pub mod pages;
