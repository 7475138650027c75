pub mod sim;
