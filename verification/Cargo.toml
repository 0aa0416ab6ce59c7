[package]
name = "timelock_core"
version = "0.1.0"
edition = "2021"
publish = false

[dependencies]
bls12_381 = "0.8"
group = "0.13"
tiny-keccak = { version = "2", features = ["keccak"] }
rand = "0.8"
ethabi = "18"
secp256k1 = "*"
dotenv = "0.15"
tokio = { version = "1", features = ["macros", "rt-multi-thread"] }
web3 = "0.19"
