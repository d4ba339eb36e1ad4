pub mod scanning;
