//! Which network interface leads to a phone over its USB tether, and the reversible route
//! policy that keeps it from becoming a gateway.
pub mod address;
pub mod apply;
pub mod guard;
pub mod identity;
pub mod journal;
pub mod linux;
pub mod netlink;
pub mod policy;
pub mod recover;
pub mod restore;
pub mod windows;
pub use address::{
    binding_prefix, same_prefix, valid_tether_prefix, Address, TetherPrefix, TetherSnapshot,
};
pub use identity::{
    interface_identity_matches, is_tether_adapter, is_tether_capable_driver, is_tether_driver,
    same_adapter_instance, valid_command_interface_name, AdapterIdentity, InterfaceIdentity,
    ProcessOwner, TetherBinding,
};
