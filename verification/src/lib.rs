//! Verified core of a small WireGuard overlay-network manager.
//!
//! A `Directory` records one optional relay node and an ordered list of
//! peer nodes.  The library merges node updates with sticky-key semantics,
//! renders tunnel configuration text for a peer's or the relay's viewpoint,
//! encodes and decodes the directory's on-disk document, and models the
//! sequenced steps that bring a network interface up.

pub mod activator;
pub mod directory;
pub mod keys;
pub mod net;
pub mod node;
pub mod parser;
pub mod render;
pub mod stanza;
pub mod store;
pub mod text;

pub use activator::{
    ActivationAction, ActivationError, ActivationReport, InterfaceState, Key, KeyPair,
    PeerConfigBuilder, StepOutcome, WgQuick,
};
pub use directory::{Directory, DirectoryError, DirectoryView};
pub use keys::{ProvisioningError, WgKeyPair, WireGuardCommand};
pub use net::IpNet;
pub use node::{Endpoint, EndpointView, Node, NodeView};
pub use stanza::{Interface, Peer};
pub use store::StoreError;
