[package]
name = "unity_typetree_gen"
version = "0.1.0"
edition = "2021"
publish = false

[dependencies]
dotnetdll = "*"
rabex = "*"
