//! Verified core of the license scan and serve workflows.
pub mod context;
pub mod convert;
pub mod declared;
pub mod expression;
pub mod extract;
pub mod headers;
pub mod index;
pub mod jobs;
pub mod json;
pub mod keyed;
pub mod lists;
pub mod matched_text;
pub mod models;
pub mod nix;
pub mod notice;
pub mod paths;
pub mod query;
pub mod reading;
pub mod readme;
pub mod routes;
pub mod serve;
pub mod sourcemap;
pub mod spdx;
pub mod text;
pub mod workflow;
