[package]
name = "mcping"
version = "0.1.0"
edition = "2021"
publish = false

[dependencies]
serde_json = "1"
clap = { version = "4", features = ["derive"] }
ctrlc = "3"
libc = "0.2"
windows-sys = { version = "*", features = ["Win32_Networking_WinSock"] }
