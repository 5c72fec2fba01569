[package]
name = "fater"
version = "0.1.0"
edition = "2021"
publish = false

[dependencies]
wasm-bindgen = "0.2"
wasm-bindgen-futures = "0.4"
web-sys = { version = "0.3", features = ["Window", "Document", "HtmlElement", "Element", "Node", "NodeList", "Event", "EventTarget", "PointerEvent", "Request", "RequestInit", "RequestMode", "Response", "console"] }
