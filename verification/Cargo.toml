[package]
name = "worders"
version = "0.1.0"
edition = "2021"
publish = false

[dependencies]
byteorder = "1"
rand = "0.8"
tungstenite = "0.20"
wasm-bindgen = "0.2"
console_error_panic_hook = "0.1"
web-sys = { version = "0.3", features = ["BinaryType", "Document", "Element", "HtmlButtonElement", "HtmlElement", "HtmlTableCellElement", "HtmlTableElement", "Node", "WebSocket", "Window"] }
