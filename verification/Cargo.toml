[package]
name = "fasta_stat"
version = "1.0.0"
edition = "2021"
publish = false

[dependencies]
num-format = "0.4"
chrono = "0.4"
clap = "4"
