//! A flashcard trainer's engine: cards get an identity from their text, a scheduling model
//! turns grades into due dates, a table keeps the review state of every card, and a
//! sitting leads through the cards that are due. Around it stand the reading of cards from
//! markdown text and the conversion of packages of another flashcard program.

pub mod card;
pub mod check;
pub mod cloze_utils;
pub mod create;
pub mod crud;
pub mod drill;
pub mod fsrs;
pub mod hash;
pub mod import;
pub mod llm;
pub mod palette;
pub mod question_utils;
pub mod text;
pub mod utils;
