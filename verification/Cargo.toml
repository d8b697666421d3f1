[package]
name = "text_editor"
version = "0.1.0"
edition = "2021"
publish = false

[dependencies]
ropey = "1"
regex = "1"
tree-sitter = "*"
tree-sitter-highlight = "*"
tree-sitter-rust = "*"
synoptic = "2"
jni = "*"
android_logger = "*"
log = "0.4"
pollster = "*"
thiserror = "*"
anyhow = "1"
raw-window-handle = "0.6"
wgpu = "*"
app-surface = "*"
