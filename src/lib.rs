//! The core of an embeddable JavaScript runtime: the shared response queue,
//! the op registry and op model, and the decisions of the isolate driver.
pub mod isolate;
pub mod ops;
pub mod shared_queue;
