pub mod library;
pub mod order;
pub mod session;
pub mod sort;
pub mod text;
pub mod track;

pub use library::Library;
pub use session::PlayError;
pub use session::PlaybackState;
pub use session::Player;
pub use track::Song;
