//! The iSCSI protocol, from PDUs up to SCSI commands.

pub mod command;
pub mod config;
pub mod digest;
pub mod login;
pub mod pdu;
pub mod pipeline;
pub mod recovery;
pub mod session;
pub mod text;
pub mod transport;

pub use config::Config;
pub use login::{LoginManager, LoginResult, NegotiatedParams};
pub use pipeline::Pipeline;
pub use recovery::RecoveryManager;
pub use session::Session;
pub use transport::{DigestConfig, TransportReader, TransportWriter};
