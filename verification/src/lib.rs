//! A small verified library behind a console demonstration: the Fibonacci
//! sequence, a checked sum, a fixed catalogue of language names with their
//! display ordinals, and a score table mapping names to integer scores.

pub mod fib;
pub mod scores;
pub mod showcase;

pub use fib::fibonacci;
pub use fib::fibonacci_checked;
pub use scores::score_table;
pub use scores::ScoreMap;
pub use showcase::greeting;
pub use showcase::languages;
pub use showcase::numbered_languages;
pub use showcase::sum;
