[package]
name = "lll"
version = "0.1.0"
edition = "2021"
publish = false

[dependencies]
alphanumeric-sort = "=1.5.8"
cursive = "0.15"
dirs = "=2.0.2"
failure = "=0.1.8"
fs_extra = "=1.3.0"
lazy_static = "=1.5.1"
libc = "=0.2.191"
ncurses = "=5.101.0"
serde = "=1.0.229"
serde_derive = "=1.0.229"
structopt = "=0.3.26"
toml = "=0.5.11"
unicode-width = "=0.1.14"
users = "=0.11.0"
walkdir = "=2.5.0"
wordexp = "=0.1.0"
xdg = "=2.5.2"
