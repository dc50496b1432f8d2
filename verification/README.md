# powercycling

Power-cycle a USB device identified by VID (Vendor ID), PID (Product ID) and
serial number, by switching hub port power (PPPS). Linux only.

Built for hardware-in-the-loop rigs, where a hanging MCU devboard needs its VBUS
cut rather than only the USB link reset. Exactly the one port that feeds the
device is cut, unless explicitly told otherwise. (For USB 3.x hubs, the other
half of the receptacle _must_ be held down with it.)

When it cannot be ensured that only the specified device loses power, an error
with precise instructions is the outcome.

## Layout

- `src/` is a [Verus](https://github.com/verus-lang/verus) library that makes
  every decision and touches no device: which ports feed a device, which hub is
  the other half of which, what to switch in what order, what to say. Each
  function carries a contract; what holds across several of them is proved in
  the `*_laws` modules, in `pairing_order` and at the end of the modules
  concerned.
- `app/` is the command-line program around it: libusb, sysfs, the terminal and
  the clock.
- `tests/` runs the library on made-up buses.

## Requirements

- **Hardware:** a hub that does per-port power switching (PPPS). Most bare-board
  hubs do; many consumer hubs _claim_ it but do not have the hardware (MOSFETs)
  to actually cut the power (`--verify` finds out).
- **Permissions:** switching a port needs write access to the port's sysfs
  `disable` attribute (kernel 6.0+) or the hub's usbfs node.
- **Identity:** `lsusb` gives VID and PID; the serial is in
  `/sys/bus/usb/devices/<location>/serial`. The serial can be omitted if the
  VID-PID pair is unique on the bus.

## Command line

```text
powercycling <vid> <pid> [serial]                 # cycle
powercycling <vid> <pid> [serial] --verify        # check once per setup: LED + collateral damage
powercycling <vid> <pid> [serial] --primary-only  # cut one half only, watch the LED
powercycling <vid> <pid> [serial] --debug         # what the search sees
powercycling --tree                               # the USB tree, hubs with their other half
powercycling --probe <hub> <port>                 # find a missing hub pair by LED
```

Each takes `--pairs-file <path>` for the machine's declared hub pairs; the first
four also `--above <n>` to cycle the hub `n` levels above the device (e.g. a
carrier board) with everything on it.

Run `--verify` once per physical USB port with a device that has a power LED: a
cycle that succeeds only proves that the device left the bus, not that it lost
power.

The approach, walking to a PPPS-capable hub and switching both halves of a
USB 3.x receptacle, comes from [uhubctl](https://github.com/mvp/uhubctl) by
Vadim Mikhailov.
