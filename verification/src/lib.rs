//! `rbxmonet`: Roblox passes, developer products and badges declared in
//! one products file, merged from and synced to a universe, and rendered
//! as a Luau module (with an optional TypeScript declaration).
pub mod text;
pub mod codegen;
pub mod names;
pub mod diffs;
pub mod products;
pub mod luau;
pub mod download;
pub mod api;
pub mod upload;
pub mod icons;
pub mod persist;
