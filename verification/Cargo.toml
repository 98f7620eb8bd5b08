[package]
name = "monk"
version = "0.1.0"
edition = "2021"
publish = false

[dependencies]
url = { version = "2", features = ["serde"] }
rand = "0.8"
chrono = { version = "0.4", features = ["serde"] }
serde = { version = "1", features = ["derive"] }
serde_json = "1"
serde_yaml = "0.9"
thiserror = "1"
directories = "5"
directories-next = "2"
structopt = "0.3"
regex = "1"
once_cell = "1"
rayon = "1"
ndarray = { version = "0.15", features = ["rayon"] }
ndarray-rand = "0.14"
ordered-float = "*"
rust-stemmers = "1"
stopwords = "*"
cutters = "*"
unicode-segmentation = "1"
