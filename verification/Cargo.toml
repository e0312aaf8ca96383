[package]
name = "wdrlib"
version = "0.1.0"
edition = "2021"
publish = false

[dependencies]
zookeeper = "0.8"
crossbeam = "0.8"
url = "2"
gethostname = "0.4"
local_ipaddress = "0.1"
config = { version = "0.10", default-features = false, features = ["toml"] }
serde = { version = "1", features = ["derive"] }
serde_json = "1"
ctrlc = "3"
env_logger = "0.10"
log = "0.4"
reqwest = { version = "0.11", default-features = false, features = ["blocking"] }
actix-web = { version = "4", default-features = false, features = ["macros"] }
