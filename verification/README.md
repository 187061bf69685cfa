# adibi

The device side of the Android Debug Bridge (ADB) for Linux, with its protocol logic verified in
Verus. It exposes a USB gadget via `FunctionFS`, so that a host running `adb` can connect to the
device as if it were an Android device.

It supports:

- USB gadget registration as an ADB interface (class 0xFF/0x42/0x01)
- Device identity discovery from DMI, `/proc/cpuinfo`, the device tree, `/etc/os-release`,
  `/etc/machine-id` and `/etc/hostname`
- Interactive shell (`adb shell`)
- File transfer (`adb pull`, `adb push`)
- Port forwarding (`adb forward`) over TCP, abstract Unix, and filesystem Unix sockets
- Reboot (`adb reboot`)

## Layout

`src/` is the verified library. It performs no I/O: a connection is told that an operation is
complete, and returns the effects that are to be had, in order. Where it needs an answer from the
system (a file, a shell, a socket), it asks one question and goes on with the reply.

| Module | What it holds |
| --- | --- |
| `message` | message headers, protocol versions, the CNXN response |
| `sync`, `sync_service` | requests, frames and sessions of the file transfer protocol |
| `transfer` | what a file transfer promises as a whole |
| `stream`, `forward` | open streams, service names, forwarding destinations |
| `event` | effects, questions and replies |
| `session`, `connection` | what a connection does about each event, as a function on values, and the connection that does it |
| `guarantees` | what a connection promises over many steps |
| `buffers`, `user_data` | write buffers and operation tags for `io_uring` |
| `ffs`, `gadget`, `usb` | `FunctionFS` events, gadget setup, descriptor and string blobs |
| `device_info`, `dmi`, `text` | device identity and the texts that it is read from |
| `bytes` | little-endian integers and byte sequences |

Three functions are believed rather than proved, each with its contract next to it: `from_utf8` in
`text`, which calls the standard library, and `search_entry` and `first_system` in `dmi`, which call
the `dmidecode` crate.

`app/` is the daemon around the library: the command line, the `io_uring` loop, files, PTYs and
sockets.

## Commands

```
adibi                    run the daemon on the endpoints that systemd hands over
adibi setup-gadget       create the USB gadget in ConfigFS
adibi bind-udc           bind the gadget to a USB Device Controller
adibi write-blobs DIR    write descriptors.bin and strings.bin
```
