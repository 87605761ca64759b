[package]
name = "swc_open_elements"
version = "0.1.0"
edition = "2021"
publish = false

[dependencies]
swc_atoms = "*"
swc_html_ast = "*"
syn = { version = "1", features = ["full"] }
quote = "1"
proc-macro2 = "1"
pmutil = "0.5"
