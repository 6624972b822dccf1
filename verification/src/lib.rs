//! The decisions of an SGI Indy emulator, verified: its configuration and clock, its
//! disks and their overlays, its network, the shapes of its drawing commands, and its
//! menus. Files, sockets, threads and windows are left to the program around it.
#![allow(unused_imports)]
pub mod bytes;
pub mod camera_nokhwa;
pub mod camera_test;
pub mod chd_commit;
pub mod chd_disk;
pub mod chd_overlay;
pub mod classic_ui;
pub mod cli;
pub mod config;
pub mod cow_disk;
pub mod disk_error;
pub mod machine_config;
pub mod net_addr;
pub mod net_dns;
pub mod net_pcap;
pub mod rex3_jit;
pub mod rex3_shape;
pub mod rtc;
pub mod scsi_menu;
pub mod shape_map;
pub mod sorting;
pub mod sparse_overlay;
pub mod text;
