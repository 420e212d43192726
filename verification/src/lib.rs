//! Decoder for Windows Event Log (EVTX) files.
//!
//! An EVTX file is a header followed by fixed-size chunks. Each chunk holds
//! records whose payload is BinXml, a tokenized binary encoding of XML that
//! refers back into a per-chunk string table and a per-chunk template table.
//! This crate decodes such files into a sequence of visitor calls per record.
//! Every function states what it computes as a contract over a mathematical
//! model of the bytes, and the contract is proved.

pub mod chunk;
pub mod crc;
pub mod decoder;
pub mod err;
pub mod grammar;
pub mod instantiate;
pub mod json;
pub mod laws;
pub mod model;
pub mod nesting;
pub mod parser;
pub mod reader;
pub mod record;
pub mod render;
pub mod reorder;
pub mod settings;
pub mod shared;
pub mod string_cache;
pub mod template_cache;
pub mod text;
pub mod value;
pub mod visitor;
pub mod xml;
pub mod xml_json;
pub mod xml_output;

pub use crate::chunk::{EvtxChunk, EvtxChunkHeader};
pub use crate::json::JsonOutput;
pub use crate::parser::EvtxParser;
pub use crate::record::{EvtxRecord, EvtxRecordHeader};
pub use crate::settings::ParserSettings;
pub use crate::visitor::BinXmlOutput;
pub use crate::xml::{bytes_to_string, dummy_event};
pub use crate::xml_json::{event_to_element, xml_to_json};
pub use crate::xml_output::XmlOutput;
