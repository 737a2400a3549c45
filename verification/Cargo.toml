[package]
name = "mykrut"
version = "0.1.0"
edition = "2021"
publish = false

[dependencies]
anyhow = "1"
arboard = { version = "3", default-features = false }
dirs = "6"
futures-util = "0.3"
hayro = "*"
image = { version = "0.25", default-features = false, features = ["bmp", "gif", "ico", "jpeg", "png", "pnm", "tiff", "webp"] }
infer = "*"
jwalk = "*"
kamadak-exif = "*"
lexical-sort = "*"
libc = "0.2"
lofty = "*"
md-5 = "0.10"
mime_guess = "2"
mtp-rs = "*"
notify = "8"
opener = "*"
serde = { version = "1", features = ["derive"] }
thiserror = "2"
tokio = { version = "1", features = ["rt-multi-thread", "time", "sync", "macros"] }
toml = "*"
tracing = "0.1"
tracing-subscriber = { version = "0.3", features = ["env-filter"] }
trash = "5"
walkdir = "2"
zbus = "5"
