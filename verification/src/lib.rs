//! CraftMC manager core: the decisions, stores and parsers behind a
//! PaperMC / Minecraft server manager, stated and proved with Verus.
//! The program around it (HTTP, processes, files) is not part of it.

pub mod api;
pub mod auth;
pub mod backup;
pub mod clock;
pub mod config;
pub mod console;
pub mod deals;
pub mod files;
pub mod ids;
pub mod marketplace;
pub mod messages;
pub mod order;
pub mod paths;
pub mod players;
pub mod plugins;
pub mod region;
pub mod server;
pub mod tasks;
pub mod text;
