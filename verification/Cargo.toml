[package]
name = "global_sync"
version = "0.1.0"
edition = "2021"
publish = false

[dependencies]
rattler_conda_types = "*"
url = "*"
fs-err = "*"
is_executable = "*"
futures = "*"
console = "*"
