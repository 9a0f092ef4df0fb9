[package]
name = "small_tools"
version = "0.1.0"
edition = "2021"
publish = false

[dependencies]
unicode-normalization = "=0.1.26"
clap = "=2.34.0"
num_cpus = "=1.17.0"
quick-error = "=1.2.3"
strum = "=0.28.0"
strum_macros = "=0.28.0"
term_size = "0.3"
