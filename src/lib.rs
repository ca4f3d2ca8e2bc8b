//! A modular synthesizer's real-time core: the patch graph and the routing of
//! control messages, the split of the module list among worker threads and
//! the barrier between ticks, the MIDI voice allocator, the envelope's stage
//! machine, and the ring buffers behind every delay-line module.

pub mod scheduler;
pub mod voice_queue;
pub mod midi;
pub mod graph;
pub mod message;
pub mod envelope;
pub mod delay_line;
