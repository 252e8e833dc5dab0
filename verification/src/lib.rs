#![verifier::loop_isolation(false)]

pub mod text;
pub mod config;
pub mod snap;
pub mod switcher;
pub mod appearance;
pub mod defaults;
pub mod outputs;
pub mod editor;
