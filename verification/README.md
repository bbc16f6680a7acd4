# blueos_driver

Verified register-level logic for the ESP32-C3/C6 GPSPI2 controller, the
IO_MUX/GPIO-matrix pin controller, the CO5300 QSPI AMOLED panel and the
AXP2101 PMIC.

- `src/` — the library, verified with Verus. Each driver operation is a
  program of bus steps (register writes and read-modify-writes, polls, data
  buffer loads, chip-select toggles, I2C transfers, delays) with an exact
  contract, plus a small state machine per bus that steps through a program
  and decides what happens on timeouts and bus failures. Where the hardware's
  answers decide (the status-bit poll loop), a step function states exactly
  what follows each answer, and the loop's contract states which polls were
  made and what they answered.
- `app/` — the hardware side: MMIO through `tock_registers`, I2C, GPIO and
  delays through `embedded-hal`; it performs the actions the library asks
  for and reports back what the hardware answered.
- `tests/` — the library's tests.
