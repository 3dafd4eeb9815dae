//! The packet and class types under the name of the stage that they first pass.

pub use crate::packet::{Packet, MAX_PACKET_SIZE};
pub use crate::priority::{Priority, PriorityTable};
