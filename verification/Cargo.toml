[package]
name = "fixepub"
version = "0.1.0"
edition = "2021"
publish = false

[dependencies]
clap = { version = "=4.6.7", features = ["derive"] }
indicatif = "=0.18.6"
scraper = "=0.29.0"
xmltree = { version = "=0.12.0", features = ["attribute-order"] }
zip = { version = "=9.1.0", default-features = false, features = ["deflate"] }

[dev-dependencies]
nom = "=8.0.0"
