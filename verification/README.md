# llw

Control of Lian Li wireless fans, strips and AIOs through the TX/RX USB
dongle pair: device discovery, fan PWM, RGB uploads, and a reliability
daemon that keeps the link healthy.

The library in `src/` is verified with Verus. It holds the wire protocol
(frames, device records, the dongle conversation over a `UsbIo` transport),
the effect catalog and animation planning, the daemon's decisions (dropout
filtering, surge watch, tiered recovery, the step schedule and its RF
silence window, the air inventory, bind/unbind), configuration rules, the
L-Connect import rules, and the command-line tool's checks. Contracts state
what each function returns or sends; the laws the library keeps are public
proof functions next to the code they speak of.

`app/` is the program around it: argument parsing, the USB transport over
libusb, tinyuz compression, the floating-point effect renderer and fan
curves, hwmon sensors, the JSON configuration file, the IPC socket and the
daemon loop. `tests/` exercises the library, with `FakeIo` standing in for
the dongles.
