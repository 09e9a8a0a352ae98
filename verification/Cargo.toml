[package]
name = "dns_sd_native"
version = "0.1.0"
edition = "2021"
publish = false

[dependencies]
widestring = "=1.2.1"
thiserror = "=2.0.21"
log = "=0.4.35"
tokio = { version = "=1.54.1", features = ["rt", "sync"] }
futures-util = "=0.3.34"
zbus = { version = "=5.19.0", default-features = false, features = ["tokio"] }
windows-strings = "=0.5.1"
windows = { version = "=0.62.2", features = ["Win32_Foundation", "Win32_NetworkManagement_Dns", "Win32_System_SystemInformation"] }
