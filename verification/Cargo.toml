[package]
name = "media_organizer"
version = "0.1.0"
edition = "2021"
publish = false

[dependencies]
diesel = { version = "=2.3.14", features = ["sqlite"] }
dotenvy = "=0.15.7"
lofty = "=0.25.4"
musicbrainz_rs = { version = "=0.14.0", features = ["async"] }
reqwest = { version = "=0.13.5", features = ["json"] }
sanitize-filename = "=0.6.0"
serde_json = "=1.0.154"
strsim = "=0.11.1"
tokio = { version = "=1.54.1", features = ["macros", "rt-multi-thread"] }
