pub mod side;
