//! Verified core of the Koikatsu Sunshine launcher: the text formats it reads
//! and rewrites (the translator's INI file, BepInEx.cfg, the UTF-16 setup.xml),
//! the font table, the plugin switch, and the launcher's appearance settings.

pub mod text;
pub mod lines;
pub mod ini;
pub mod console;
pub mod fonts;
pub mod utf16;
pub mod setup;
pub mod plugins;
pub mod appearance;
pub mod paths;
