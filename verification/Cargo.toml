[package]
name = "goose_office"
version = "0.1.0"
edition = "2021"
publish = false

[dependencies]
quick-xml = "0.31"
pulldown-cmark = { version = "0.9", default-features = false }
zip = { version = "0.6", default-features = false, features = ["deflate"] }
lopdf = "0.32"
umya-spreadsheet = "1.2"
calamine = "0.24"
csv = "1"
regex = "1"
flate2 = "1"
image = { version = "0.24", default-features = false, features = ["png", "jpeg"] }
imageproc = { version = "0.23", default-features = false }
rusttype = "0.9"
clap = { version = "4", features = ["derive"] }
serde = { version = "1", features = ["derive"] }
serde_json = "1"
thiserror = "1"
windows = { version = "0.52", features = ["Data_Pdf", "Storage", "Storage_Streams", "Foundation"] }
