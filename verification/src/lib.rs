//! The logic of a fast image viewer.
#![allow(unused_imports)]

pub mod text;
pub mod bytes;
pub mod list;
pub mod path;
pub mod md5;
pub mod files;
pub mod assoc;
pub mod com;
pub mod com_server;
pub mod wic;
pub mod loader;
pub mod geom;
pub mod config;
pub mod ui;
pub mod win;
pub mod turn;
pub mod textures;
pub mod nav;
pub mod cache;
pub mod input;
pub mod app;
pub mod session;
pub mod frame;
pub mod gpu;
pub mod upload;
pub mod thumbcache;
pub mod clipboard;
pub mod install;
pub mod launch;
