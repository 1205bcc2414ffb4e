//! Protocol core of a userspace network stack: a layered datagram codec
//! (checksummed header/payload views over byte buffers) together with a
//! cooperative scheduling substrate (logical clock, timer registry, and an
//! explicitly polled task pool).

pub mod checksum;
pub mod fail;
pub mod icmpv4;
pub mod ipv4;
pub mod runtime;
pub mod scheduler;
pub mod seqs;
pub mod timer;
