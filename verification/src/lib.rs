//! The verified core of the CodeTracer shell trace writer: the wire
//! protocol of the shell recorders, its translation into trace-writer
//! calls, and the JSON sidecar files of a trace.
pub mod bridge_laws;
pub mod cli;
pub mod json;
pub mod protocol_laws;
pub mod text;
pub mod trace_bridge;
pub mod values;
pub mod wire_protocol;
