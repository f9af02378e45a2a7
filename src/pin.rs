mod logic_pin;
pub use logic_pin::LogicPin;

mod pin_trait;
pub use pin_trait::Pin;
