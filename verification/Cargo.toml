[package]
name = "diag_render"
version = "0.1.0"
edition = "2021"
publish = false

[dependencies]
annotate-snippets = "0.10"
anstream = "0.6"
anstyle = "1"
scoped-tls = "1"
