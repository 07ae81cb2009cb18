pub mod connection;
pub mod hasher;
pub mod protocol;
pub mod server;
pub mod streamer;

pub use connection::Action;
pub use connection::Connection;
pub use hasher::Hasher;
pub use protocol::sanitize_filename;
pub use server::ConnectionTable;
pub use server::Server;
pub use streamer::FileStreamer;
