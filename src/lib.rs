//! A discrete-event digital-logic simulator.
pub mod device;

pub mod net;
pub use net::Net;
pub use net::NetConnection;

mod pin_direction;
pub use pin_direction::PinDirection;

pub mod pin;

pub mod message;
pub use message::CircuitToDeviceMessage;
pub use message::DeviceToCircuitMessage;

mod device_data;
pub use device_data::DeviceData;

pub mod circuit;
pub use circuit::Circuit;
pub use circuit::CircuitError;
