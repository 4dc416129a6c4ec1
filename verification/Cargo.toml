[package]
name = "starship"
version = "0.1.0"
edition = "2021"
publish = false

[dependencies]
chrono = "0.4"
log = "0.4"
serde = { version = "1", features = ["derive"] }
serde_json = "1"
systemstat = "*"
winapi = { version = "0.3", features = ["errhandlingapi", "fileapi", "handleapi", "processthreadsapi", "winbase", "winnt"] }
