[package]
name = "remote_exec"
version = "0.1.0"
edition = "2021"
publish = false

[dependencies]
async-compat = "=0.2.6"
portable-pty = "=0.7.0"
smol = "=1.3.0"
tokio = { version = "=1.54.1", features = ["macros", "rt-multi-thread", "time"] }
wezterm-ssh = "=0.4.0"
