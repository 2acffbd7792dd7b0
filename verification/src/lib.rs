//! Verified core of a terminal board for the Chicago 'L': feed decoding,
//! line naming, fuzzy station search and the application state machine.

pub mod text;
pub mod fuzzy;
pub mod model;
pub mod app;
pub mod lines;
pub mod feed;
pub mod regional;
pub mod poll;
pub mod display;
pub mod ai;
pub mod control;
pub mod track;
pub mod panels;
pub mod config;
pub mod request;
