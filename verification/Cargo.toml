[package]
name = "ncspot_core"
version = "0.1.0"
edition = "2021"
publish = false

[dependencies]
chrono = { version = "=0.4.45", default-features = false, features = ["clock", "std"] }
cursive = { version = "=0.21.1", default-features = false, features = ["crossterm-backend"] }
http = "=1.5.0"
icy_sixel = "=0.7.0"
image = { version = "=0.25.10", default-features = false, features = ["jpeg", "png"] }
libc = "0.2"
librespot-core = { version = "=0.8.0", default-features = false, features = ["rustls-tls-webpki-roots"] }
librespot-playback = { version = "=0.8.0", default-features = false, features = ["rustls-tls-webpki-roots"] }
log = "0.4"
rand = "=0.10.3"
rtrb = "=0.3.6"
serde = { version = "1", features = ["derive"] }
serde_json = "1"
tokio = { version = "1", features = ["macros", "rt", "sync", "time"] }
tokio-stream = "0.1"
unicode-width = "=0.2.3"
ureq = { version = "=2.12.1", default-features = false, features = ["json"] }
# librespot-core's build needs a vergen that agrees with its vergen-gitcl.
vergen = { version = "=9.0.6", default-features = false }
