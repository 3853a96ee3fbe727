[package]
name = "markdown_boxes"
version = "0.1.0"
edition = "2021"
publish = false

[dependencies]
serde = { version = "=1.0.229", features = ["derive"] }
serde_json = "=1.0.154"
serde_yml = "*"
comrak = { version = "=0.59.0", default-features = false }
leptos = { version = "=0.8.23", features = ["csr"] }
leptos_router = "=0.8.17"
wasm-bindgen = "=0.2.130"
js-sys = "=0.3.107"
web-sys = { version = "=0.3.107", features = ["Window", "Navigator", "Clipboard", "Blob", "BlobPropertyBag", "Url", "Document", "Element", "HtmlAnchorElement"] }
