pub mod macos;
