//! Well-known telnet protocol byte values: command codes and option codes.

pub mod op_command;
pub mod op_option;
