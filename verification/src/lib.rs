//! Packaging, release trust, execution rules and authoring rules of Sloper
//! extensions.

#![allow(unused_imports)]

pub mod admission;
pub mod assembly;
pub mod attempt;
pub mod attributes;
pub mod binary;
pub mod command;
pub mod compile;
pub mod completion;
pub mod component;
pub mod constraints;
pub mod declaration;
pub mod derive;
pub mod envelope;
pub mod host;
pub mod icon;
pub mod identity;
pub mod inputs;
pub mod json;
pub mod limits;
pub mod logs;
pub mod manifest;
pub mod naming;
pub mod paths;
pub mod primitives;
pub mod provenance;
pub mod publication;
pub mod receipt;
pub mod redact;
pub mod release;
pub mod request;
pub mod runner;
pub mod scaffold;
pub mod schema;
pub mod sealing;
pub mod sources;
pub mod store;
pub mod streams;
pub mod supply;
pub mod table;
pub mod text;
pub mod tool;
pub mod working;
pub mod world;

use vstd::prelude::*;
