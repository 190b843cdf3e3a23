pub mod cf_iterator;
