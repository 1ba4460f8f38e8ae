[package]
name = "error_message_format"
version = "0.1.0"
edition = "2021"
publish = false

[dependencies]
ext-php-rs = "*"
