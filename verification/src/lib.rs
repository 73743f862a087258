//! Verified models of the devices of a virtual machine.
pub mod bytes;
pub mod cli;
pub mod framebuffer;
pub mod guest_memory;
pub mod input_bridge;
pub mod input_protocol;
pub mod input_server;
pub mod legacy;
pub mod nvme;
pub mod pci;
pub mod ram;
pub mod simplefb;
pub mod throttle;
pub mod uhci;
pub mod uhci_registers;
pub mod uhci_schedule;
pub mod usb;
pub mod usb_hid;
pub mod vfio;
pub mod vnc;
pub mod vnc_input;
pub mod vnc_messages;
pub mod vnc_pixels;
pub mod vnc_server;
