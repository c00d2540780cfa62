[package]
name = "invoice_extract"
version = "0.1.0"
edition = "2021"
publish = false

[dependencies]
scraper = "*"
eyre = "*"
