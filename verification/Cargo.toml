[package]
name = "acpi_tables"
version = "0.1.0"
edition = "2021"

[dependencies]
zerocopy = { version = "0.7", features = ["derive"] }
