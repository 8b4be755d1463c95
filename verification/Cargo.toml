[package]
name = "kvm_common"
version = "0.1.0"
edition = "2021"
publish = false

[dependencies]
chacha20poly1305 = "0.10"
sha2 = "0.10"
getrandom = "0.3"
clap = { version = "4", features = ["derive"] }
evdev = "0.12"
nix = { version = "0.27", features = ["fs", "poll"] }
signal-hook = "0.3"
windows-sys = { version = "0.52", features = ["Win32_Foundation", "Win32_UI_Input_KeyboardAndMouse"] }

[dev-dependencies]
bincode = "1.3"
