[package]
name = "inventario"
version = "0.1.0"
edition = "2021"
publish = false

[dependencies]
bcrypt = "0.15"
chrono = "0.4"
csv = "1"
diesel = { version = "2.2", features = ["sqlite", "r2d2"] }
diesel_migrations = { version = "2.2", features = ["sqlite"] }
once_cell = "1"
r2d2 = "0.8"
rusqlite = { version = "0.32", features = ["bundled"] }
serde = { version = "1", features = ["derive"] }
