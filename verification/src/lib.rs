//! Repository-shape audits for independently authored contract sources.
//!
//! Two audits share this crate:
//! - [`authority_write`] rejects automation (workflows, scripts, tools) that
//!   writes directly to an authored TypeSpec or JSON Schema source;
//! - [`contract_config`] inspects `contracts.config.json` declarations of a
//!   TypeSpec / JSON Schema peer pair.
//!
//! Both audits are pure functions of a snapshot of the repository; the
//! file-system walk that produces the snapshot lives outside the library.
pub mod text;
pub mod json;
pub mod shell;
pub mod metadata;
pub mod authority_write;
pub mod paths;
pub mod snapshot;
pub mod contract_config;
pub mod options;
