[package]
name = "bpfimp"
version = "0.1.0"
edition = "2021"
publish = false

[dependencies]
anyhow = "1"
aya = "0.13.1"
aya-ebpf = "0.1.1"
aya-log = "0.2.1"
aya-log-ebpf = "0.1.0"
clap = "4"
env_logger = "0.11"
libc = "0.2"
log = "0.4"
network-types = "=0.2.0"
nix = { version = "0.31", features = ["time", "user"] }
notify = "8"
notify-debouncer-full = "0.7"
serde = { version = "1", features = ["derive"] }
serde_json = "1"
tokio = { version = "1", features = ["macros", "net", "rt-multi-thread", "signal", "sync"] }
toml = "0.9"
