//! Verified core of a small editor for opencode configuration files:
//! JSONC comment stripping, configuration path selection, a sorted string
//! map, the provider/model editing rules, the model-list request and answer,
//! and the states of the model picker.

pub mod editor;
pub mod fetch;
pub mod json;
pub mod jsonc;
pub mod number;
pub mod order;
pub mod paths;
pub mod strmap;
pub mod text;

pub use jsonc::{config_json_text, strip, strip_jsonc};
pub use paths::wsl_path;
