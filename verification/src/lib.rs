//! Wisp: the reflected interface of interactive WGSL shaders, verified.
//!
//! The crate holds the logic of a wisp shader's interface: parsing of `///`
//! doc-comment annotations ([`annot`]), the recognized globals members and
//! their packing ([`globals`]), the runtime input values and the packing of the
//! params uniform ([`inputs`]), the reflected schema built from a shader module
//! ([`schema`]), WGSL reflection through naga ([`reflect`]), the sizing of
//! intermediate pass targets ([`targets`]), the sample history behind audio
//! input textures ([`audio`]) and the state and decisions of a live-coding
//! editor ([`editor`]).

pub mod align;
pub mod annot;
pub mod audio;
pub mod editor;
pub mod globals;
pub mod inputs;
pub mod layout;
pub mod number;
pub mod reflect;
pub mod schema;
pub mod targets;
pub mod text;
