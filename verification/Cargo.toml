[package]
name = "mindash"
version = "1.0.0"
edition = "2021"
publish = false

[dependencies]
async-stream = "0.3"
axum = "0.8"
base64 = "0.22"
console_error_panic_hook = "0.1"
futures-core = "0.3"
futures-util = "0.3"
gloo-net = { version = "0.6", default-features = false, features = ["http", "json"] }
gloo-timers = { version = "0.3", features = ["futures"] }
hmac = "0.12"
js-sys = "0.3"
leptos = { version = "0.7", features = ["csr"] }
pbkdf2 = { version = "0.12", features = ["hmac"] }
quick-xml = "0.36"
rand = "0.8"
reqwest = { version = "0.12", default-features = false, features = ["rustls-tls", "charset", "http2"] }
serde = { version = "1", features = ["derive"] }
serde_json = "1"
sha2 = "0.10"
subtle = "2"
thiserror = "1"
tokio = { version = "1", features = ["full"] }
tower-http = { version = "0.6", features = ["fs", "trace"] }
tracing = "0.1"
tracing-subscriber = { version = "0.3", features = ["env-filter"] }
wasm-bindgen = "0.2"
web-sys = { version = "0.3", features = ["Window", "Document", "Element", "HtmlElement", "CssStyleDeclaration", "DomTokenList", "EventSource", "EventTarget", "MessageEvent"] }
