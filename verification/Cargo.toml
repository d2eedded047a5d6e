[package]
name = "truth"
version = "0.1.0"
edition = "2021"
publish = false

[dependencies]
anyhow = "1"
bstr = "0.2"
codespan = "0.11"
codespan-reporting = "0.11"
indexmap = "1"
