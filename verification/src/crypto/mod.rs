pub mod encryption;
