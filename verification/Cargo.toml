[package]
name = "emnist_loader"
version = "0.1.0"
edition = "2021"
publish = false

[dependencies]
flate2 = "1"
dfdx = "0.13"
nalgebra = "0.32"
ndarray = "0.15"
plotters = "0.3"
rand = "0.8"
rand_distr = "0.4"
npyz = "0.8"
num = "0.4"
