pub mod ini;
pub mod location;
pub mod numbers;
pub mod text;
