[package]
name = "wasmer_journal"
version = "0.1.0"
edition = "2021"
publish = false

[dependencies]
anyhow = "=1.0.104"
enumset = "=1.1.15"
raw-cpuid = "=9.1.1"
target-lexicon = "=0.13.5"
