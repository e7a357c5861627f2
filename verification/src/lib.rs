//! A small SMTP server core: the grammar of a command line, the
//! per-connection session, and the reply and connection action that each
//! command earns.  Reading from and writing to sockets is left to the
//! caller, which hands lines and byte chunks in and carries actions out.

mod decode;
pub mod frame;
pub mod grammar;
pub mod parsed;
pub mod smtp;

pub use parsed::{read_command, ParsedSMTP};
pub use smtp::{Action, Reply, Session, SmtpCommand};
