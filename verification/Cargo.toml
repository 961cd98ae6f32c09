[package]
name = "safari_history"
version = "0.1.0"
edition = "2021"
publish = false

[dependencies]
fst = "0.3"
fst-levenshtein = "*"
fst-regex = "*"
url = "1"
hyper = "*"
mime = "0.3"
rmp-serde = "*"
serde = "1"
alfred = "*"
iron = "*"
router = "*"
iron-json-response = "*"
logger = "*"
log = "*"
pretty_env_logger = "*"
rayon = "1"
rusqlite = { version = "*", features = ["bundled"] }
webicon = "*"
glob = "*"
error-chain = "*"
