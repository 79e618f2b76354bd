[package]
name = "fluid_scroll"
version = "0.1.0"
edition = "2021"
publish = false

[dependencies]
libm = "=0.2.16"
num = "0.4"
readonly = "0.2"
wasm-bindgen = "0.2"
web-sys = { version = "0.3", features = ["Document", "Element", "Event", "EventTarget", "MouseEvent", "Node", "Performance", "Touch", "TouchEvent", "TouchList", "Window", "console"] }
