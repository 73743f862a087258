//! Devices of the original PC.
pub mod acpi_loader;
pub mod fw_cfg;
pub mod fw_cfg_files;
pub mod i8042;
pub mod i8042_commands;
pub mod keymap;
pub mod pit;
