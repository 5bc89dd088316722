pub mod token;
