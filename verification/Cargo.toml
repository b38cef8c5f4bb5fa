[package]
name = "theme_wallpaper"
version = "0.1.0"
edition = "2021"
publish = false

[dependencies]
image = "*"
attheme = "*"
tbot = "*"
tokio = { version = "*", features = ["macros", "rt-multi-thread"] }
dotenv = "*"
