[package]
name = "shielded_pool"
version = "0.1.0"
edition = "2021"
publish = false

[dependencies]
sha2 = "*"
pinocchio = "*"
pinocchio-system = "*"
solana-program-error = "*"
solana-program-log = "*"
bytemuck = { version = "*", features = ["derive"] }
