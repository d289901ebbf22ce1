# simulatron

The toolchain of the Simulatron, a small 32-bit computer: an assembler for
its SimAsm language (`salt`), a linker for its SimObj object files (`silk`),
and parts of its virtual machine's logic, written in Verus with their
behaviour stated in contracts and proved.

## Layout

- `src/bytes.rs`, `src/text.rs`, `src/hexprint.rs`: big-endian reading and
  writing, decimal and hexadecimal rendering, hex dumps.
- `src/salt/`: the assembler. `lexer` splits source text into tokens (the
  longest token at each place, so that a source has one lexing), `parser`
  builds a lossless syntax tree, `ast` is a typed view of it, `codegen`,
  `modes` and `objfile` turn a program into a SimObj file, and `report`
  finds the line of a diagnostic.
- `src/silk/`: the linker. `parser` reads object files and lays their
  sections end to end, `linker` combines files and their symbol tables and
  links them into ROM or disk images.
- `src/vm/`: parts of the virtual machine: `keys` and `display` (the
  character set, key presses, display memory), `cpu` (the register file,
  flags, shifts, comparisons and jumps, the interrupt latch), `alu` (the
  integer arithmetic, bitwise and rotate instructions), `mmu` (the memory
  map and page translation), `memory` (the interrupt vector, ROM and RAM),
  `bus` (16- and 32-bit and virtual loads and stores through the page
  tables) and `access` (typed loads and stores in the current mode, the
  stack, entering an interrupt handler, and the LOAD, STORE, SWAP,
  BLOCKSET and BLOCKCOPY instructions), `cycle` (one cycle of the
  processor: taking an interrupt, fetching, decoding and executing an
  instruction, and the action it asks of whoever runs the machine) and
  `disk` (a disk controller's decisions: the block address, commands,
  status flags and the sustained step). The timer, the channels between the
  parts, the controllers' threads and files, and the terminal are not part
  of this crate.
- `src/sorting.rs`: a stable sort through itertools, used to order symbol
  tables.
- `app/`: the command-line programs `salt`, `silk` and `vm`: argument
  handling, files, logging and coloured diagnostics; for `vm`, the loop
  around the processor's cycles (waiting for interrupts, the timer,
  sending the interrupts a cycle asks for, floating-point work) and the
  keyboard and the display in the terminal. The disks are not wired to
  `vm`.
- `tests/`: tests of the library on concrete inputs.
