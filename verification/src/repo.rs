//! Repositories: what is served, fetched, blocked and merged.

pub mod agepolicy;
pub mod anchors;
pub mod approvalgate;
pub mod cargo;
pub mod cargo_dl;
pub mod cargo_laws;
pub mod cargo_search;
pub mod dangling;
pub mod document_laws;
pub mod engine;
pub mod engine_laws;
pub mod flight;
pub mod gate_laws;
pub mod gomod;
pub mod gosemver;
pub mod group;
pub mod group_cache;
pub mod group_metadata;
pub mod index_laws;
pub mod licensegate;
pub mod licensescan;
pub mod maven;
pub mod merge;
pub mod merge_laws;
pub mod merge_member_laws;
pub mod native_upload;
pub mod negcache;
pub mod npm;
pub mod npm_laws;
pub mod npm_serve;
pub mod npm_tag_laws;
pub mod path;
pub mod path_laws;
pub mod publish_laws;
pub mod pypi;
pub mod reply;
pub mod route;
pub mod scan_laws;
pub mod serve_laws;
pub mod span;
pub mod splice;
pub mod tracking_laws;
pub mod upstream;
