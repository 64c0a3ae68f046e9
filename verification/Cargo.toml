[package]
name = "workflow_dom"
version = "0.1.0"
edition = "2021"
publish = false

[dependencies]
futures = "*"
js-sys = "*"
regex = "*"
thiserror = "*"
wasm-bindgen = "*"
web-sys = { version = "*", features = ["Blob", "BlobPropertyBag", "CustomEvent", "Document", "Element", "EventTarget", "HtmlCollection", "Node", "Url", "Window"] }
workflow-core = "*"
workflow-log = "*"
workflow-wasm = "*"
