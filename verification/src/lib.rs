//! Verified core of the PIMProbe touch-probing service.
pub mod controller;
pub mod frame;
pub mod logs;
pub mod magnitude;
pub mod parser;
pub mod probe;
pub mod reviews;
pub mod routine;
pub mod script;
pub mod service;
pub mod stage;
pub mod text;
pub mod updates;
