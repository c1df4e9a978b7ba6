[package]
name = "birthday_bot"
version = "0.1.0"
edition = "2021"
publish = false

[dependencies]
chrono = "=0.4.45"
anyhow = "*"
log = "*"
dotenv = "*"
pretty_env_logger = "*"
json = "*"
async-sqlite = "*"
# Not used directly: teloxide-core asks for takecell ^0.1, and the
# newest patch of that line demands a newer rustc than this toolchain
# carries.  The pin steers resolution to the last patch that builds.
takecell = "=0.1.1"
tokio = { version = "*", features = ["full"] }
teloxide = { version = "*", default-features = false, features = ["rustls", "macros"] }
