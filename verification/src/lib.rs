//! Helpers that rename, re-case and collect items of bindings generated from C headers.

pub mod case;
pub mod cli;
pub mod config;
pub mod define_enum;
pub mod helpers;
pub mod ident;
pub mod pattern;
pub mod renamer;
pub mod text;

pub use bindgen::{BindgenError, Builder};
pub use case::Case;
pub use config::{
    DefineEnumConfig, HelperConfig, HelperConfigError, IdentRenamerConfig, RenameEnumConfig,
    RenameEnumValueConfig, RenameItemConfig, RenameManyConfig,
};
pub use define_enum::{DefineEnum, DefineEnumSort};
pub use helpers::{BindingsBuilder, BindingsBuilderError};
pub use ident::IdentRenamer;
pub use pattern::Regex;
pub use renamer::Renamer;
