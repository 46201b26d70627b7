pub mod cli;
pub mod error;
pub mod laws;
pub mod lockbud;
pub mod seqs;
pub mod stable_analysis;
pub mod stable_demo;
pub mod stable_mir;
pub mod text;

pub use error::ObolError;
