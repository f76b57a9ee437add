//! Usagi's verified core: the bundle format and what goes into a bundle,
//! the compound-assignment preprocessor, game identifiers and where their
//! data lives, module resolution, runtime templates and the decisions and
//! names of `usagi export`, palettes, icon scaling, sprite cells, the
//! pause menu with its key and gamepad capture, and the per-frame
//! decisions of a session and its error reports.

pub mod text;
pub mod error;
pub mod save;
pub mod codec;
pub mod bundle;
pub mod preprocess;
pub mod game_id;
pub mod vfs;
pub mod paths;
pub mod templates;
pub mod export;
pub mod macos_app;
pub mod project;
pub mod settings;
pub mod launch;
pub mod palette;
pub mod icon;
pub mod menu;
pub mod input;
pub mod frame;
pub mod pause;
pub mod sprite;
pub mod report;
