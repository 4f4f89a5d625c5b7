pub mod error;
pub mod format;
pub mod order;
pub mod rule;
pub mod text;
pub mod ruleorder;
pub mod labels;
pub mod codec;
pub mod fstset;
pub mod keyword;
pub mod regexes;
pub mod builder;
pub mod container;
pub mod scan;
pub mod roundtrip;
pub mod reader;
pub mod matcher;
pub mod suffix;
pub mod readback;
pub mod config;
pub mod handler;
pub mod upstream;
pub mod web;
pub mod cache;
