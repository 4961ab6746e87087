[package]
name = "repo_discover"
version = "0.1.0"
edition = "2021"
publish = false

[dependencies]
bstr = "*"
git-features = "*"
git-path = "*"
git-sec = "*"
thiserror = "1"

[dev-dependencies]
tempfile = "3"
symlink = "*"
