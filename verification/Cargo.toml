[package]
name = "mcworldgen"
version = "0.1.0"
edition = "2021"
publish = false

[dependencies]
fastanvil = "*"
fastnbt = "*"
itertools = "*"
partitions = "*"
rayon = "*"
serde = { version = "*", features = ["derive"] }
tui = "*"
walkdir = "*"
wildmatch = "*"
