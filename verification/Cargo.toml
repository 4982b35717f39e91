[package]
name = "ct_shell_trace_writer"
version = "0.1.0"
edition = "2021"
publish = false

[dependencies]
codetracer_trace_types = "=0.16.3"
codetracer_trace_writer = "=0.17.3"

[dev-dependencies]
serde_json = "1"
