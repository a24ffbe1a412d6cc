pub mod any_peekable;
pub mod vec_peekable;

pub use any_peekable::AnyPeekable;
pub use vec_peekable::VecPeekable;
