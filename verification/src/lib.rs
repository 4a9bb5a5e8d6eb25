//! Sample handling for a small real-time audio correction pipeline: the
//! shared sample buffer that the capture side fills and the processing side
//! reads, the sizing constants, sample selection, and the rules by which the
//! interactive set-up picks a host, a device and a stream configuration.
pub mod constants;
pub mod communication;
pub mod listen;
pub mod samples;
