[package]
name = "quickwit-indexing"
version = "0.3.0"
edition = "2021"
publish = false

[dependencies]
anyhow = "1"
async-trait = "0.1"
fail = "0.5"
fnv = "1"
itertools = "0.10"
serde = { version = "1", features = ["derive"] }
serde_json = "1"
tantivy = "0.19"
tokio = { version = "1", features = ["macros", "rt", "rt-multi-thread", "sync", "time"] }
tracing = "0.1"
ulid = "1"
