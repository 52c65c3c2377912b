# deadlock_abba

Two bus devices (I²C and SPI), each with a name, three 8-bit registers and a
write counter, and two threads that keep copying a register from one device
into the other. With the argument `deadlock` the second thread takes its
locks in the opposite order, and the program hangs (the A-B / B-A deadlock).

- `src/device.rs`: the device, its register reads and writes, and its
  one-line description, verified against the abstract view `DeviceView`.
- `src/transfer.rs`: the transfer rules: which device is read and written,
  the order in which the two are locked, the copy itself, and the
  command-line flag. Lemmas there state the lock orders of both modes and
  that opposite transfers commute.
- `app/main.rs`: the program: mutexes, threads, sleep and printing.
- `tests/`: the tests of the library.
