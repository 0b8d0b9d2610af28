[package]
name = "compiler-core"
version = "0.1.0"
edition = "2021"
publish = false

[dependencies]
tinyvec = { version = "1", features = ["alloc"] }
clap = "2.33"
anyhow = "1"
wasm-bindgen = "0.2"
web-sys = { version = "0.3", features = ["CssStyleDeclaration", "Document", "Element", "EventTarget", "HtmlElement", "HtmlTextAreaElement", "InputEvent", "Node", "Window"] }
