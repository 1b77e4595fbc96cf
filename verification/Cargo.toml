[package]
name = "pg_strings"
version = "0.1.0"
edition = "2021"
publish = false

[dependencies]
datafusion = { version = "*", default-features = false }
icu_casemap = "2"
icu_properties = "2"
unicode-normalization = "0.1"
