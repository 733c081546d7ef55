[package]
name = "mathyank"
version = "0.1.0"
edition = "2021"
publish = false

[dependencies]
sha2 = "0.10"
clap = { version = "4", features = ["derive", "env"] }
color-eyre = "0.6"
env_logger = "0.10"
fs-err = "2"
html2md = "0.2"
Inflector = "0.11"
itertools = "0.12"
log = "0.4"
mdbook = { version = "0.4", default-features = false }
nom-bibtex = "*"
png = "0.17"
pulldown-cmark = "*"
pulldown-cmark-to-cmark = "*"
regex = "1"
resvg = { version = "0.29", default-features = false }
semver = "1"
serde = { version = "1", features = ["derive"] }
serde_json = "1"
thiserror = "1"
toml = "0.5"
walkdir = "2"
which = "4"
