[package]
name = "robo_sim4"
version = "0.1.0"
edition = "2021"
publish = false

[dependencies]
image = { version = "*", default-features = false, features = ["png"] }
piston = "*"
piston_window = "*"
bml_ml = "*"
