[package]
name = "mdbook-epub"
version = "0.4.37"
edition = "2021"
publish = false

[dependencies]
epub-builder = "*"
handlebars = "4"
pulldown-cmark = { version = "0.9", default-features = false }
mime_guess = "2"
serde_json = "1"
mdbook = { version = "0.4", default-features = false }
log = "0.4"
env_logger = "0.10"
structopt = "0.3"
ureq = "2"

[dev-dependencies]
epub = "*"
