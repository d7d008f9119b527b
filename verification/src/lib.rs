//! A driver for NOR flash chips behind the FlexSPI peripheral of the RT6xx.
//!
//! The crate holds every decision of the driver and none of its bus cycles. Each driver method
//! hands back a [`procedure::Procedure`]: a value that names the next register access, takes what
//! the register answered, and in the end yields the result. What a procedure does is stated as a
//! function of the answers it has received so far (see [`procedure::Run`]). What follows from that
//! for the driver as a whole is stated and proved in [`laws`].

pub mod laws;
pub mod nor_flash;
pub mod peripheral;
pub mod procedure;
pub mod registers;
pub mod words;
