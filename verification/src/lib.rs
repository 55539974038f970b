pub mod text;
pub mod model;
pub mod markdown;
pub mod meta_law;
pub mod roundtrip;
pub mod read_back;
pub mod app;
pub mod config;
pub mod input;
pub mod kgp;
pub mod layout;
pub mod present;
pub mod render;
pub mod view;
