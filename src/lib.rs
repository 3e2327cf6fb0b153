//! Protocol engine for emulated game clients: a byte buffer with read and
//! write cursors, the variable-length integer codec, length framing,
//! optional zlib compression, per-state packet dispatch, and the admission
//! and bookkeeping logic of a connection scheduler.
pub mod bot;
pub mod buf;
pub mod net;
pub mod packet_processors;
pub mod play;
pub mod scheduler;
pub mod states;
pub mod varint;
