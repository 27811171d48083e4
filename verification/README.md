# chip8

A CHIP-8 virtual machine written in Verus, with its behaviour proved against a
mathematical model.

- `src/emulator/ram.rs`: 4096 bytes of memory, the hexadecimal font at address 0.
- `src/emulator/keyboard.rs`: the keypad (at most one key held down).
- `src/emulator/display.rs`: the 64×32 monochrome screen and XOR sprite drawing,
  specified pixel by pixel (`spec_draw_byte`), with the collision flag.
- `src/emulator/bus.rs`: memory, keypad, screen and the 60 Hz delay timer.
- `src/emulator/cpu.rs`: the interpreter. `spec_step` is the model of one
  fetch-and-execute cycle; `Cpu::run_instruction` is proved to produce a state that
  `spec_step` allows, and `Cpu::can_run_instruction` tells whether an instruction can
  run at all (unknown instructions, stack overflow, arithmetic overflow and addresses
  outside memory stop the machine).
- `src/emulator/chip8.rs`: the whole machine, with ROM loading.
- `app/`: a small program that decodes an instruction of a ROM file, and screen
  printing.
