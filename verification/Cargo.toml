[package]
name = "network_utils"
version = "0.1.0"
edition = "2021"
publish = false

[dependencies]
libc = "*"
libproc = "*"
netlink-packet-core = "*"
netlink-packet-sock-diag = "*"
netlink-sys = "*"
rayon = "*"
sysctl = "*"
thiserror = "*"
windows-sys = { version = "*", features = ["Win32_Foundation", "Win32_NetworkManagement_IpHelper", "Win32_Networking_WinSock", "Win32_System_Diagnostics_ToolHelp", "Win32_System_ProcessStatus", "Win32_System_Threading"] }
