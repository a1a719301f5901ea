//! Core logic of a line-oriented broadcast chat service, together with a
//! small in-memory task store.

pub mod broadcast;
pub mod registry;
pub mod session;
pub mod tasks;
pub mod text;

pub use broadcast::{recipients, Delivery};
pub use registry::{Client, RegisterError, Registry};
pub use session::{
    handshake_step, prompt, receive_step, ChunkEvent, HandshakeStep, LineEvent, ReceiveStep,
    SessionState,
};
pub use tasks::{
    fmt_status, join_with_commas, select_tasks, tags_column, Status, Task, TaskError, TaskRepo,
};
