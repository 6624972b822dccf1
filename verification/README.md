# iris

The decisions of an SGI Indy emulator as a Verus library: what a configuration means,
what the guest's clock shows, where a disk's reads and writes go and what an interrupted
commit leaves, which frames cross a network bridge, which shape of drawing command a
compiled shader serves, and what the menus offer.

- `src/` is the library. Its public functions carry contracts, and the public proof
  functions named `law_…` state what holds across several of them.
- `tests/` runs the library on given values.
- `app/` is the program around it: files, CHD images, sockets, captures, cameras, threads
  and windows.

| Module | What it decides |
|---|---|
| `config`, `machine_config`, `cli` | sections of a configuration, their defaults, validation, what the command line changes |
| `rtc` | the civil calendar and the guest clock's offset |
| `net_addr`, `net_dns`, `net_pcap` | addresses and subnets, the DNS proxy, the bridge onto a host interface |
| `cow_disk` | the copy-on-write overlay of a raw image |
| `chd_overlay`, `sparse_overlay`, `chd_disk`, `chd_commit` | overlays of CHD images, how a disk is opened, how changes are folded back |
| `rex3_shape`, `shape_map`, `rex3_jit` | the shape of a drawing command, and the compiler's queue of shapes |
| `camera_nokhwa`, `camera_test` | the capture loop's decisions and the preview of the camera |
| `scsi_menu`, `classic_ui` | menus, status lines and what an entry does |
| `text`, `bytes`, `sorting`, `disk_error` | what the others share |
