pub mod channels;
