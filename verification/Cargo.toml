[package]
name = "teapot"
version = "0.1.0"
edition = "2021"
publish = false

[dependencies]
rand = "0.8"
glam = "0.29"
vulkano = "0.35"
vulkano-shaders = "0.35"
winit = "0.29"
png = "0.17"
actix-web = "4"
actix-ws = "0.3"
futures-util = "0.3"
