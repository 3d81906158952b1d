//! Route, locale, sidebar and page-view logic of a documentation site, and
//! what its generator computes from the markdown sources.

pub mod containers;
pub mod data;
pub mod doc_page;
pub mod frontmatter;
pub mod heading;
pub mod home_page;
pub mod layout;
pub mod lookup;
pub mod md;
pub mod navbar;
pub mod not_found;
pub mod order;
pub mod paths;
pub mod plain;
pub mod router;
pub mod sidebar;
pub mod sidebar_tree;
pub mod slug;
pub mod source;
pub mod text;
pub mod toc;
pub mod unicode;
