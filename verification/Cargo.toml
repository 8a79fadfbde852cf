[package]
name = "xmpp_lib"
version = "0.1.0"
edition = "2021"
publish = false

[dependencies]
quick-xml = "0.31"
thiserror = "1"
tokio = { version = "1", features = ["macros", "rt-multi-thread"] }
