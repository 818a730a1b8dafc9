//! The verified core of a bridge between the WeChat desktop client and programs that
//! read its messages and answer them.
//!
//! The crate holds the rules of the bridge: how database rows become messages, how a
//! reader pages through them, what a request may ask for, which keys are pressed in
//! which order. It performs no input or output; its callers hand it plain values.

pub mod attachment;
pub mod cell;
pub mod command;
pub mod contacts;
pub mod content;
pub mod db;
pub mod display;
pub mod feed;
pub mod flow;
pub mod history;
pub mod http;
pub mod input;
pub mod keys;
pub mod message;
pub mod number;
pub mod outside;
pub mod runs;
pub mod search;
pub mod send;
pub mod startup;
pub mod store;
pub mod tables;
pub mod text;
pub mod textmap;
pub mod wechat;
pub mod xml;
