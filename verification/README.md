# rustinfo

A hardware monitor for Linux. It reads what the kernel tells of the machine (hwmon, procfs,
powercap, model-specific registers, the amdgpu driver, the system management unit of AMD
processors) and shows it on a terminal, prints it once, or keeps a log of it.

The logic is a verified library: `src/` is written in Verus, and every public function there has
a contract that Verus proves. `app/` is the program around it: it reads the files and registers,
hands their texts to the library, does the arithmetic in floating point, and draws.

## How numbers are held

The library holds no floating-point numbers. What the kernel reports is kept as it was written,
with the division that is still to be done (`model::Value`). A number that was computed comes back
as its IEEE 754 bit pattern (`double::Double`), which the library compares, bounds and cuts off
exactly; the sampling interval is lengthened and shortened on such patterns too, with the rounding
of IEEE 754 (`scaling`). A number that is to be written out is kept with its decimals
(`model::Fixed`).

## Modules

| | |
|---|---|
| `text`, `numbers`, `lists`, `order`, `table` | texts, whole numbers and decimal fractions, lists, sorting, a table by name |
| `double`, `scaling`, `model`, `files`, `output`, `style` | numbers, snapshots, what files say, lines of output, styled lines |
| `cpu`, `memory`, `psi`, `msr`, `rapl` | processors, memory, pressure, energy counters |
| `hwmon`, `gpu`, `traffic`, `firmware`, `battery` | sensors, graphics, disks and networks, firmware tables, batteries |
| `probe` | one sample of everything |
| `clock`, `logger`, `dump` | times, the log, the dump |
| `history`, `sensors`, `screen`, `tui`, `cli` | charts, the sensor panel, the screen, its state, the command line |
| `smn`, `smu`, `pm_table`, `smuctl` | the mailboxes of the system management unit |

Statements about more than one function are public proof functions (`lemma_...`).

## What is trusted

Four functions of other libraries have contracts that are believed: `String::push`,
`char::is_alphabetic` and `str::to_lowercase` (in `text`), and the formatting of a time by chrono
(`clock::write_time`).
