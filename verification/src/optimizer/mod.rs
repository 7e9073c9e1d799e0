pub mod optimizer;
