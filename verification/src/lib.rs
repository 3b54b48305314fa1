//! A shared retrospective board: titled lanes of ranked, votable notes, the
//! operations that change it, and the life cycle of a viewer's session.

pub mod action;
pub mod board;
pub mod error;
pub mod guarantees;
pub mod ident;
pub mod item;
pub mod keyed;
pub mod lane;
pub mod ranking;
pub mod session;
pub mod tofile;

pub use action::Action;
pub use board::RetroBoard;
pub use error::MutationError;
pub use item::RetroItem;
pub use lane::RetroLane;
pub use session::{SessionCommand, SessionEvent, SessionState, Side};
pub use tofile::ToFile;
