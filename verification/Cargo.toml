[package]
name = "capnp_zmq"
version = "0.1.0"
edition = "2021"
publish = false

[dependencies]
capnp = "0.19"
libc = "0.2"
rand = "0.8"
time = "0.1"
zmq = "0.10"
