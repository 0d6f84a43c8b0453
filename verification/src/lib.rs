//! Browsing and editing a structured configuration document from a chat.
//!
//! The document is a tree of values (`value`), addressed by paths (`path`), read and
//! written in JSON, YAML or TOML (`codec`), and changed one entry at a time (`data`). A menu
//! shows what stands at an address (`menu`), and every chat follows a small state machine
//! (`chat`) that tells, for each event, the next state and what is to be sent.
//!
//! Every function is verified against its contract. The parsers and writers of the formats
//! are those of `serde_json`, `json5`, `serde_yaml` and `toml`, called through the few
//! functions of `codec` whose contracts are taken on trust.
pub mod chat;
pub mod codec;
pub mod data;
pub mod menu;
pub mod path;
pub mod text;
pub mod value;
