[package]
name = "simple_pianoroll"
version = "0.1.0"
edition = "2021"
publish = false

[dependencies]
anyhow = "1"
cpal = "=0.18.2"
eframe = { version = "=0.37.0", default-features = false, features = ["default_fonts", "glow", "x11"] }
js-sys = "0.3"
midly = "=0.5.3"
rfd = { version = "=0.17.2", default-features = false, features = ["xdg-portal"] }
serde = { version = "1", features = ["derive"] }
serde_json = "1"
wasm-bindgen = "0.2"
wasm-bindgen-futures = "0.4"
web-sys = { version = "0.3", features = ["Window", "Document", "Element", "Node", "HtmlElement", "HtmlInputElement", "HtmlAnchorElement", "HtmlCanvasElement", "Blob", "Url", "File", "FileList", "FileReader"] }
