//! Pools of the Orca exchange, and the markets that they make.
//!
//! The library decodes swap accounts ([`layout`]), turns them into markets filed by pair
//! ([`orca`], [`markets`]), follows the updates of an account ([`stream`], [`metrics`]),
//! refreshes the cached pool list ([`refresh`], [`fetch`]) and puts together what several
//! exchanges know of a token ([`discovery`]). Connections, files and clocks belong to its
//! callers: they perform the steps that the library asks for and hand the outcomes back.

pub mod binary64;
pub mod discovery;
pub mod fetch;
pub mod keys;
pub mod layout;
pub mod markets;
pub mod metrics;
pub mod orca;
pub mod refresh;
pub mod rounding;
pub mod stream;
pub mod table;
