//! Core of a trading-order-management backend: a process-unique 128-bit
//! identifier generator — its value type, hexadecimal text codec, and
//! monotonic generation protocol — together with the order model's plain
//! enums. The HTTP scaffold around it lives outside the library.

pub mod id_generator;
pub mod models;
