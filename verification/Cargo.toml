[package]
name = "it_tui"
version = "0.1.0"
edition = "2021"
publish = false

[dependencies]
anyhow = "1"
ansi-to-tui = "*"
arboard = "3"
chrono = "0.4"
crossterm = "*"
futures-util = "0.3"
ratatui = "*"
serde = { version = "1", features = ["derive"] }
serde_json = "1"
serde_yaml = "0.9"
throbber-widgets-tui = "*"
tokio = { version = "1", features = ["full"] }
tokio-tungstenite = "*"
tracing = "0.1"
tui-tree-widget = "*"
uuid = { version = "1", features = ["v4"] }
