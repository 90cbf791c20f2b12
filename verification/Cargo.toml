[package]
name = "rustros_tf"
version = "0.1.0"
edition = "2021"
publish = false

[dependencies]
nalgebra = "*"
bytemuck = "*"
rosrust = "*"
rosrust_msg = "*"
