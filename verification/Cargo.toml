[package]
name = "keyx"
version = "1.3.0"
edition = "2021"
publish = false

[dependencies]
aes-gcm = "0.10"
base64 = "0.22"
pbkdf2 = "0.12"
sha2 = "0.10"
rand = "0.8"
chrono = "0.4"
toml = "0.8"
serde_json = "1"
keyring = "3"
rpassword = "7"
tiny_http = "0.12"
ureq = "2"
ctrlc = "3"
home = "0.5"
