pub mod lexicon;
pub mod scanner;
pub mod token;
