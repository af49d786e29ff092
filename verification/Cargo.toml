[package]
name = "oxygen"
version = "0.1.0"
edition = "2021"
publish = false

[dependencies]
audiopus = "=0.2.0"
bytemuck = "=1.25.2"
chrono = "=0.4.45"
clap = { version = "=4.6.7", features = ["derive"] }
cpal = "=0.18.2"
ctrlc = "=3.5.2"
directories = "=6.0.0"
env_logger = "=0.11.11"
hound = "=3.5.1"
log = "=0.4.34"
num-complex = "=0.4.6"
realfft = "=3.5.0"
rusqlite = { version = "=0.40.2", features = ["bundled"] }
symphonia = "=0.6.1"
