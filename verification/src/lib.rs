//! Share one mouse and keyboard between two machines.
pub mod aead;
pub mod args;
pub mod batch;
pub mod capture;
pub mod codec;
pub mod config;
pub mod crypto;
pub mod delivery;
pub mod discovery;
pub mod emitter;
pub mod event;
pub mod frame;
pub mod grab;
pub mod handshake;
pub mod hyprland;
pub mod json;
pub mod keys;
pub mod master;
pub mod master_laws;
pub mod noise;
pub mod paths;
pub mod platform;
pub mod pointer;
pub mod reliable;
pub mod safety;
pub mod scale;
pub mod slave;
pub mod slave_config;
pub mod text;
pub mod transport;
pub mod wire;

pub use crypto::{parse_psk, CryptoError, Handshake, Psk, SessionKeys};
pub use event::{DisplayGeometry, Edge, HelloInfo, InputEvent, Point, WelcomeInfo, PROTO_VERSION};
pub use frame::Frame;
pub use transport::{Received, Session};
pub use wire::{Channel, WireError, MAX_PACKET_LEN};
