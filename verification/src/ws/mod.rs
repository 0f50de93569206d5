pub mod upgrade;
