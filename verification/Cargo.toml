[package]
name = "nun"
version = "0.1.0"
edition = "2021"
publish = false

[dependencies]
kashida = "*"
icu_segmenter = "*"
pathfinding = "*"
rustybuzz = "*"
ab_glyph = "*"
ab_glyph_rasterizer = "*"
owned_ttf_parser = "*"
image = "*"
imageproc = "*"
resvg = "*"
facet = "*"
facet-toml = "*"
pico-args = "*"
