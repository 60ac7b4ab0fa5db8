[package]
name = "mfro"
version = "0.1.0"
edition = "2021"
publish = false

[dependencies]
crc = "=3.4.0"
bitvec = "=1.1.1"
chrono = "=0.4.45"
icalendar = "=0.17.17"
anyhow = "=1.0.104"
serde = { version = "=1.0.229", features = ["derive"] }
serde_json = "=1.0.154"
rouille = "=3.6.2"
reqwest = { version = "=0.12.28", default-features = false, features = ["json"] }
tokio = { version = "=1.54.1", features = ["macros", "rt-multi-thread", "time"] }
rumqttc = { version = "=0.25.1", default-features = false }
rustfft = "=6.4.1"
ringbuffer = "=0.16.0"
rustradio = { version = "=0.10.1", default-features = false }
bt-hci = "=0.10.1"
trouble-host = { version = "=0.8.0", features = ["scan"] }
embassy-futures = "=0.1.2"
embassy-time = { version = "=0.5.1", features = ["std"] }
embedded-io = "=0.7.1"
futures-util = "=0.3.34"
log = "=0.4.35"
bytemuck = "=1.25.2"
