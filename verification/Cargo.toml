[package]
name = "leptos_tea"
version = "0.1.0"
edition = "2021"
publish = false

[dependencies]
leptos_reactive = "*"
smallvec = "*"
futures = "*"
