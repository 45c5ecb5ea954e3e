[package]
name = "xlsx_grid"
version = "0.1.0"
edition = "2021"
publish = false

[dependencies]
rust_xlsxwriter = "*"
serde = "*"
calamine = "*"
quick-xml = "*"
zip = "*"
