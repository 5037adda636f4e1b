//! Platform components: integer kernels of the portable math routines, randomness, the
//! system clock, and the thread-local ambient context.
pub mod libm;
pub mod rand_rng;
pub mod system_clock;
pub mod thread_local_ctxt;
