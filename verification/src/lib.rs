//! The article versioning and slug resolution engine of a wiki, with the
//! dispatcher that maps request paths to resources.

pub mod history;
pub mod laws;
pub mod listing;
pub mod models;
pub mod new_article_resource;
pub mod paths;
pub mod search;
pub mod slugs;
pub mod state;
pub mod text;
pub mod wiki_lookup;
