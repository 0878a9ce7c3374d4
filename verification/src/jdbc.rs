pub mod statement_adapter;
