[package]
name = "poa_ballot_stats"
version = "0.1.0"
edition = "2021"
publish = false

[dependencies]
ethabi = "*"
web3 = "*"
clap = "*"
colored = "*"
serde = { version = "*", features = ["derive"] }
serde_json = "*"
parse_duration = "*"
futures = "*"
