//! Incremental note commitment tree witnesses, and the wallet records around them.

pub mod address;
pub mod address_id;
pub mod error;
pub mod frontier;
pub mod hexfmt;
pub mod network;
pub mod node;
pub mod protocol_address;
pub mod record;
pub mod registry;
pub mod sapling;
pub mod seed_material;
pub mod session;
pub mod snapshot;
pub mod text;
pub mod transparent;
pub mod tree;
pub mod witness;

pub use address::Address;
pub use address_id::{u256, AddressId, AddressIdError};
pub use error::WitnessError;
pub use frontier::Frontier;
pub use network::Network;
pub use node::HashNode;
pub use protocol_address::{ProtocolAddress, ShieldedAddress, UnifiedAddress};
pub use record::{Assertion, RecordValue, WitnessRecord};
pub use registry::AddressRegistry;
pub use sapling::sapling_expanded_spending_key::SaplingExpandedSpendingKey;
pub use sapling::sapling_witness::SaplingWitness;
pub use seed_material::{Blob, SeedMaterial};
pub use transparent::Address as TransparentAddress;
pub use tree::TreeConfig;
pub use witness::Witness;
