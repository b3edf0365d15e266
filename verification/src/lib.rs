//! Verified building blocks for the robot software stack: variable-width
//! integers and sequenced framing for the packet layers, the packet state
//! machine, behavior-tree combinators, sensor register access and builders.

pub mod foreign;
pub mod packet;
pub mod peer;
pub mod sequenced;
pub mod uint;
pub mod bt;
pub mod luna_bt;
pub mod fragment;
pub mod ecc;
pub mod byteable;
pub mod lumpur;
pub mod text;
pub mod shader_types;
pub mod gpu_buffers;
pub mod register;
pub mod command;
