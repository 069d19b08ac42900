[package]
name = "webgit"
version = "0.1.0"
edition = "2021"
publish = false

[dependencies]
anyhow = "1"
comrak = { version = "*", default-features = false }
console_error_panic_hook = "0.1"
futures = "0.3"
git-async = "*"
git-version = "0.3"
jiff = "0.2"
js-sys = "0.3"
serde = { version = "1", features = ["derive"] }
serde_json = "1"
wasm-bindgen = "0.2"
wasm-bindgen-futures = "0.4"
web-sys = { version = "0.3", features = ["Blob", "BlobPropertyBag", "CustomEvent", "Document", "DocumentFragment", "DomException", "DomStringList", "DomParser", "Element", "Event", "EventTarget", "File", "FileList", "FileReader", "Headers", "HtmlAnchorElement", "HtmlElement", "HtmlIFrameElement", "HtmlInputElement", "History", "IdbCursor", "IdbCursorWithValue", "IdbDatabase", "IdbFactory", "IdbKeyRange", "IdbObjectStore", "IdbObjectStoreParameters", "IdbOpenDbRequest", "IdbRequest", "IdbTransaction", "IdbTransactionMode", "IdbVersionChangeEvent", "Location", "MouseEvent", "Node", "NodeList", "ReadableStream", "ReadableStreamDefaultReader", "Request", "RequestCache", "RequestInit", "RequestMode", "Response", "ResponseInit", "SupportedType", "Url", "Window", "WritableStream", "WritableStreamDefaultWriter", "console"] }
yew = { version = "*", features = ["csr", "ssr"] }
