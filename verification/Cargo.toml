[package]
name = "concats"
version = "0.1.0"
edition = "2021"
publish = false

[dependencies]
agent-client-protocol = "*"
clap = { version = "4", features = ["derive"] }
crossterm = { version = "*", features = ["event-stream"] }
dirs = "*"
figment = { version = "0.10", features = ["env", "toml"] }
makepad-live-id = "*"
miette = "7"
ratatui = "0.30"
ratatui-textarea = "*"
serde = { version = "1", features = ["derive"] }
serde_json = "1"
tempfile = "3"
throbber-widgets-tui = "*"
time = { version = "0.3", features = ["formatting", "parsing"] }
tokio = { version = "1", features = ["macros", "rt-multi-thread", "sync", "time"] }
tokio-stream = "0.1"
tokio-util = "0.7"
toml = "*"
tracing = "0.1"
tracing-subscriber = { version = "0.3", features = ["env-filter"] }
tui-widget-list = "*"
