//! Discovery and registry core of a Bluetooth Low Energy central.

pub mod adapter;
pub mod addr;
pub mod error;
pub mod history;
pub mod manager;
pub mod peripheral;

pub use adapter::Adapter;
pub use addr::BDAddr;
pub use error::Error;
pub use manager::{AdapterManager, CentralEvent, EventReceiver, Upsert};
pub use peripheral::{Advertisement, Peripheral};
