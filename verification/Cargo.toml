[package]
name = "hvdevices"
version = "0.1.0"
edition = "2021"
publish = false

[dependencies]
vm-memory = { version = "*", features = ["backend-mmap", "backend-atomic", "backend-bitmap"] }
acpi_tables = "*"
zerocopy = { version = "*", features = ["derive"] }
byteorder = "*"
uuid = { version = "*", features = ["v4"] }
vfio_user = "*"
vfio-bindings = { version = "*", features = ["fam-wrappers"] }
vmm-sys-util = "*"
libc = "*"
log = "*"
env_logger = "*"
clap = { version = "*", features = ["derive", "string"] }
signal-hook = "*"
thiserror = "*"
