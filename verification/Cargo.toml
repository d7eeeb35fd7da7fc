[package]
name = "fee_volatility"
version = "0.1.0"
edition = "2021"
publish = false

[dependencies]
rand = "0.8"
ethers = { version = "2", default-features = false, features = ["rustls"] }
tokio = { version = "1", features = ["macros", "rt-multi-thread", "time"] }
futures = "0.3"
dotenv = "0.15"
