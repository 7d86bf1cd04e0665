[package]
name = "dji-telemetry-export"
version = "0.1.0"
edition = "2021"
publish = false

[dependencies]
anyhow = "=1.0.104"
chrono = "=0.4.45"
clap = { version = "=4.6.7", features = ["derive"] }
eframe = { version = "=0.37.0", default-features = false, features = ["default_fonts", "glow", "x11"] }
rfd = { version = "=0.17.2", default-features = false, features = ["xdg-portal"] }
thiserror = "=2.0.21"
windows-sys = { version = "=0.61.2", features = ["Win32_System_Console"] }

[dev-dependencies]
fitparser = "=0.11.0"
roxmltree = "=0.21.2"
