[package]
name = "vibe_studio"
version = "0.1.0"
edition = "2021"
publish = false

[dependencies]
serde = { version = "1", features = ["derive"] }
wasm-bindgen = "0.2"
web-sys = { version = "0.3", features = ["HtmlAudioElement", "HtmlMediaElement", "HtmlElement", "Element", "Node", "EventTarget", "Window", "Document", "File", "Blob", "Url"] }
gloo-timers = { version = "0.3", features = ["futures"] }
