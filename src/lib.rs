//! The script runtime bridge of a text-mode game host.
//!
//! Game scripts run in an embedded engine and call host functions for input,
//! drawing, randomness and persistence. This library holds what those
//! functions decide: the inline color markup and color specs (`markup`,
//! `color`), key decoding (`keys`), the conversion between script values and
//! JSON (`value`), the save document with its single active game slot
//! (`store`, `records`), statistics (`stats`), the generator behind `random`
//! (`rng`), and how a run ends and where text is drawn (`bridge`). The host's
//! own screens use `i18n`, `ui`, `script` and `version`. Terminal, engine and
//! file access stay with the caller.

pub mod text;
pub mod color;
pub mod markup;
pub mod value;
pub mod store;
pub mod version;
pub mod stats;
pub mod keys;
pub mod rng;
pub mod bridge;
pub mod i18n;
pub mod ui;
pub mod script;
pub mod records;
