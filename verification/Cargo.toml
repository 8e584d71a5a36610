[package]
name = "js_source_scopes"
version = "0.1.0"
edition = "2021"
publish = false

[dependencies]
rslint_parser = "*"
rslint_rowan = "*"
rslint_errors = "*"
rslint_syntax = "*"
indexmap = "*"
sourcemap = "*"
