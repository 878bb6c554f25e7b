pub mod dictionary;
