pub mod solve;
