//! End-to-end checks: VM source is translated to assembly, the assembly
//! is assembled to machine words, and the words run on a small simulator
//! of the target computer.

use hack_tools::assemble;
use hack_tools::vm_parser::{classify_line, translate, Parser};

struct Machine {
    ram: Vec<i16>,
    a: i16,
    d: i16,
    pc: usize,
}

fn decode(word: &str) -> u16 {
    assert_eq!(word.len(), 16);
    let mut v: u16 = 0;
    for c in word.chars() {
        v = (v << 1) | if c == '1' { 1 } else { 0 };
    }
    v
}

impl Machine {
    fn new() -> Machine {
        Machine { ram: vec![0; 32768], a: 0, d: 0, pc: 0 }
    }

    fn step(&mut self, rom: &[u16]) {
        let w = rom[self.pc];
        if w & 0x8000 == 0 {
            self.a = w as i16;
            self.pc += 1;
            return;
        }
        let a_bit = (w >> 12) & 1;
        let addr = (self.a as u16 & 0x7fff) as usize;
        let mut x = self.d;
        let mut y = if a_bit == 1 { self.ram[addr] } else { self.a };
        if (w >> 11) & 1 == 1 {
            x = 0;
        }
        if (w >> 10) & 1 == 1 {
            x = !x;
        }
        if (w >> 9) & 1 == 1 {
            y = 0;
        }
        if (w >> 8) & 1 == 1 {
            y = !y;
        }
        let mut out = if (w >> 7) & 1 == 1 { x.wrapping_add(y) } else { x & y };
        if (w >> 6) & 1 == 1 {
            out = !out;
        }
        if (w >> 3) & 1 == 1 {
            self.ram[addr] = out;
        }
        let jump = match w & 0b111 {
            0b000 => false,
            0b001 => out > 0,
            0b010 => out == 0,
            0b011 => out >= 0,
            0b100 => out < 0,
            0b101 => out != 0,
            0b110 => out <= 0,
            _ => true,
        };
        let target = (self.a as u16 & 0x7fff) as usize;
        if (w >> 5) & 1 == 1 {
            self.a = out;
        }
        if (w >> 4) & 1 == 1 {
            self.d = out;
        }
        if jump {
            self.pc = target;
        } else {
            self.pc += 1;
        }
    }
}

fn run(words: &[String], steps: usize) -> Machine {
    let rom: Vec<u16> = words.iter().map(|w| decode(w)).collect();
    let mut m = Machine::new();
    for _ in 0..steps {
        if m.pc >= rom.len() {
            break;
        }
        m.step(&rom);
    }
    m
}

/// Translates VM commands without the bootstrap prologue.
fn translate_bare(src: &str, file_name: &str) -> Vec<String> {
    let mut parser = Parser::new(file_name);
    for line in src.lines() {
        if let Some(token) = classify_line(line) {
            parser.parse(&token).expect("command must be accepted");
        }
    }
    parser.writer.lines
}

#[test]
fn push_push_add_leaves_fifteen_on_top() {
    let emitted = translate_bare("push constant 7\npush constant 8\nadd", "Main.vm");
    let words = assemble(emitted.join("\n")).expect("emitted assembly must assemble");
    let mut m = Machine::new();
    m.ram[0] = 256; // stack pointer, normally set by the bootstrap
    let rom: Vec<u16> = words.iter().map(|w| decode(w)).collect();
    while m.pc < rom.len() {
        m.step(&rom);
    }
    assert_eq!(m.ram[0], 257);
    assert_eq!(m.ram[256], 15);
}

#[test]
fn call_and_return_balance_the_stack_and_restore_the_frame() {
    let src = "function Sys.init 0\n\
               push constant 1000\n\
               pop pointer 0\n\
               push constant 1001\n\
               pop pointer 1\n\
               push constant 10\n\
               push constant 20\n\
               call Other.go 2\n\
               label HALT\n\
               goto HALT\n\
               function Other.go 0\n\
               push constant 99\n\
               return";
    let emitted = translate(src, "Main.vm").expect("source must translate");
    let words = assemble(emitted.join("\n")).expect("emitted assembly must assemble");
    let m = run(&words, 2000);
    // before the call: SP=263, LCL=261, ARG=256, THIS=1000, THAT=1001;
    // the callee took 2 arguments and returned one value (99)
    assert_eq!(m.ram[0], 262); // post-return SP = pre-call SP - 2 + 1
    assert_eq!(m.ram[261], 99); // the return value sits on top
    assert_eq!(m.ram[1], 261); // LCL restored
    assert_eq!(m.ram[2], 256); // ARG restored
    assert_eq!(m.ram[3], 1000); // THIS restored
    assert_eq!(m.ram[4], 1001); // THAT restored
}

#[test]
fn comparison_pushes_all_ones_or_zero() {
    let emitted = translate_bare("push constant 7\npush constant 7\neq", "Main.vm");
    let words = assemble(emitted.join("\n")).unwrap();
    let mut m = Machine::new();
    m.ram[0] = 256;
    let rom: Vec<u16> = words.iter().map(|w| decode(w)).collect();
    let mut steps = 0;
    while m.pc < rom.len() && steps < 1000 {
        m.step(&rom);
        steps += 1;
    }
    assert_eq!(m.ram[0], 257);
    assert_eq!(m.ram[256], -1); // true is all ones

    let emitted2 = translate_bare("push constant 7\npush constant 8\neq", "Main.vm");
    let words2 = assemble(emitted2.join("\n")).unwrap();
    let mut m2 = Machine::new();
    m2.ram[0] = 256;
    let rom2: Vec<u16> = words2.iter().map(|w| decode(w)).collect();
    let mut steps2 = 0;
    while m2.pc < rom2.len() && steps2 < 1000 {
        m2.step(&rom2);
        steps2 += 1;
    }
    assert_eq!(m2.ram[0], 257);
    assert_eq!(m2.ram[256], 0); // false is zero
}
