pub mod cas;
