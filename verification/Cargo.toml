[package]
name = "imgproc"
version = "0.1.0"
edition = "2021"
publish = false

[dependencies]
url = "2"
scraper = "*"
actix-web = "4"
actix-multipart = "0.7"
actix-files = "0.6"
actix-rt = "2"
reqwest = { version = "0.12", features = ["stream"] }
tokio = { version = "1", features = ["fs", "io-util", "time", "macros", "rt-multi-thread"] }
serde = { version = "1", features = ["derive"] }
serde_json = "1"
jsonwebtoken = "9"
dotenv = "0.15"
tracing = "0.1"
tracing-subscriber = "0.3"
exiftool = "*"
chromiumoxide = "*"
magick_rust = "*"
tempfile = "3"
futures-util = "0.3"
sqlx = { version = "0.8", default-features = false, features = ["postgres", "runtime-tokio"] }
