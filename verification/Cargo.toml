[package]
name = "worktree_explorer"
version = "0.1.0"
edition = "2021"
publish = false

[dependencies]
crossterm = "0.26"
git2 = { version = "0.17", default-features = false }
ratatui = "0.22"
