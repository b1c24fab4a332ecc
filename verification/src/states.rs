//! The machine state: eight registers, the segment table and the program
//! counter, with one method per instruction.

use crate::segments::{SegmentTable, Table, IDENTIFIERS};
use vstd::prelude::*;

verus! {

/// Number of general-purpose registers.
pub const REGISTERS: u32 = 8;

/// The value stored by an input instruction at the end of the input.
pub const END_OF_INPUT: u32 = 0xFFFF_FFFF;

/// Mathematical model of a machine.
pub struct Machine {
    pub registers: Seq<u32>,
    pub memory: Table,
    pub pc: nat,
}

impl Machine {
    /// The machine at construction: registers and program counter zero, no
    /// segment, empty free list.
    pub open spec fn initial() -> Machine {
        Machine { registers: Seq::new(8, |i: int| 0u32), memory: Table::empty(), pc: 0 }
    }

    /// There are eight registers and the segment table is well formed.
    pub open spec fn wf(self) -> bool {
        self.registers.len() == REGISTERS && self.memory.wf()
    }

    /// Value of register `i`.
    pub open spec fn reg(self, i: u32) -> u32
        recommends
            i < REGISTERS,
    {
        self.registers[i as int]
    }

    /// The machine after register `i` takes the value `v`.
    pub open spec fn with_register(self, i: u32, v: u32) -> Machine
        recommends
            i < REGISTERS,
    {
        Machine { registers: self.registers.update(i as int, v), ..self }
    }

    /// The machine after `words` are appended as a segment; on a machine
    /// without segments they become segment zero.
    pub open spec fn boot(self, words: Seq<u32>) -> Machine {
        Machine { memory: self.memory.append(words), ..self }
    }

    /// The program counter indexes a word of segment zero.
    pub open spec fn fetchable(self) -> bool {
        self.memory.live(0) && self.pc < self.memory.segment(0).len()
    }

    /// The word that the program counter points at.
    pub open spec fn current_word(self) -> u32
        recommends
            self.fetchable(),
    {
        self.memory.segment(0)[self.pc as int]
    }

    /// The machine after the program counter moves to the next word.
    pub open spec fn advance(self) -> Machine {
        Machine { pc: self.pc + 1, ..self }
    }

    /// Conditional move: register `a` takes register `b` unless register `c`
    /// is zero.
    pub open spec fn cmov(self, a: u32, b: u32, c: u32) -> Machine {
        if self.reg(c) != 0 {
            self.with_register(a, self.reg(b))
        } else {
            self
        }
    }

    /// Segmented load: register `a` takes the word at offset `reg(c)` of
    /// segment `reg(b)`.
    pub open spec fn seg_load(self, a: u32, b: u32, c: u32) -> Machine {
        self.with_register(a, self.memory.read(self.reg(b), self.reg(c)))
    }

    /// Segmented store: the word at offset `reg(b)` of segment `reg(a)`
    /// takes register `c`.
    pub open spec fn seg_store(self, a: u32, b: u32, c: u32) -> Machine {
        Machine { memory: self.memory.write(self.reg(a), self.reg(b), self.reg(c)), ..self }
    }

    /// Addition modulo 2^32.
    pub open spec fn add(self, a: u32, b: u32, c: u32) -> Machine {
        self.with_register(a, ((self.reg(b) + self.reg(c)) % 0x1_0000_0000) as u32)
    }

    /// Multiplication modulo 2^32.
    pub open spec fn mul(self, a: u32, b: u32, c: u32) -> Machine {
        self.with_register(a, ((self.reg(b) * self.reg(c)) % 0x1_0000_0000) as u32)
    }

    /// Unsigned division, rounding down.
    pub open spec fn div(self, a: u32, b: u32, c: u32) -> Machine
        recommends
            self.reg(c) != 0,
    {
        self.with_register(a, self.reg(b) / self.reg(c))
    }

    /// Bitwise not-and.
    pub open spec fn b_nand(self, a: u32, b: u32, c: u32) -> Machine {
        self.with_register(a, !(self.reg(b) & self.reg(c)))
    }

    /// Map segment: a zeroed segment of `reg(c)` words is allocated and
    /// register `b` takes its identifier.
    pub open spec fn map_seg(self, b: u32, c: u32) -> Machine {
        Machine {
            registers: self.registers.update(b as int, self.memory.next_id()),
            memory: self.memory.allocate(self.reg(c)),
            pc: self.pc,
        }
    }

    /// Unmap segment: segment `reg(c)` is released.
    pub open spec fn unmap_seg(self, c: u32) -> Machine {
        Machine { memory: self.memory.release(self.reg(c)), ..self }
    }

    /// Input: register `c` takes the byte read, or all ones at the end of
    /// the input.
    pub open spec fn input(self, c: u32, byte: Option<u8>) -> Machine {
        match byte {
            Some(value) => self.with_register(c, value as u32),
            None => self.with_register(c, END_OF_INPUT),
        }
    }

    /// Load program: segment zero takes a copy of segment `reg(b)`, unless
    /// `reg(b)` is zero, and the program counter takes register `c`.
    pub open spec fn load_prog(self, b: u32, c: u32) -> Machine {
        if self.reg(b) == 0 {
            Machine { pc: self.reg(c) as nat, ..self }
        } else {
            Machine {
                memory: self.memory.replace_zero_from(self.reg(b)),
                pc: self.reg(c) as nat,
                ..self
            }
        }
    }

    /// Load value: register `location` takes `val`.
    pub open spec fn load_val(self, location: u32, val: u32) -> Machine {
        self.with_register(location, val)
    }
}

/// The state of a Universal Machine.
pub struct State {
    registers: [u32; 8],
    memory: SegmentTable,
    prog_counter: usize,
}

impl View for State {
    type V = Machine;

    closed spec fn view(&self) -> Machine {
        Machine {
            registers: self.registers@,
            memory: self.memory@,
            pc: self.prog_counter as nat,
        }
    }
}

impl State {
    /// Creates a machine with all registers zero, no segment, an empty free
    /// list and the program counter at zero.
    pub fn new() -> (state: State)
        ensures
            state@ == Machine::initial(),
            state@.wf(),
    {
        let state = State { registers: [0u32;8], memory: SegmentTable::new(), prog_counter: 0 };
        assert(state@.registers =~= Machine::initial().registers);
        state
    }

    /// Installs the program: `instruction_set` is appended to the segment
    /// table, which on a new machine makes it segment zero.
    pub fn boot_up_instructions(&mut self, instruction_set: Vec<u32>)
        requires
            old(self)@.wf(),
            old(self)@.memory.slots.len() < IDENTIFIERS,
        ensures
            final(self)@ == old(self)@.boot(instruction_set@),
            final(self)@.wf(),
    {
        self.memory.append(instruction_set);
    }

    /// Value of register `i`.
    pub fn register(&self, i: u32) -> (value: u32)
        requires
            i < REGISTERS,
        ensures
            value == self@.reg(i),
    {
        self.registers[i as usize]
    }

    /// The program counter.
    pub fn program_counter(&self) -> (pc: usize)
        ensures
            pc == self@.pc,
    {
        self.prog_counter
    }

    /// Tells whether `id` names a live segment.
    pub fn is_live(&self, id: u32) -> (live: bool)
        ensures
            live == self@.memory.live(id),
    {
        self.memory.is_live(id)
    }

    /// Length of segment `id`, or `None` where `id` is not live.
    pub fn segment_len(&self, id: u32) -> (len: Option<usize>)
        ensures
            len is Some <==> self@.memory.live(id),
            len matches Some(n) ==> n == self@.memory.segment(id).len(),
    {
        self.memory.segment_len(id)
    }

    /// Tells whether `offset` addresses a word of a live segment `id`.
    pub fn is_addressable(&self, id: u32, offset: u32) -> (ok: bool)
        ensures
            ok == self@.memory.addressable(id, offset),
    {
        self.memory.is_addressable(id, offset)
    }

    /// Tells whether the segment table can take one more segment.
    pub fn has_room(&self) -> (room: bool)
        ensures
            room == self@.memory.has_room(),
    {
        self.memory.has_room()
    }

    /// Tells whether the program counter indexes a word of segment zero.
    pub fn can_fetch(&self) -> (ok: bool)
        ensures
            ok == self@.fetchable(),
    {
        match self.memory.segment_len(0) {
            Some(len) => self.prog_counter < len,
            None => false,
        }
    }

    /// Fetches the word that the program counter points at and moves the
    /// program counter to the next word.
    pub fn get_instruction(&mut self) -> (word: u32)
        requires
            old(self)@.fetchable(),
        ensures
            word == old(self)@.current_word(),
            final(self)@ == old(self)@.advance(),
            old(self)@.wf() ==> final(self)@.wf(),
    {
        proof {
            self.memory.lemma_segment_fits(0);
        }
        let word = self.memory.word_at(0, self.prog_counter);
        self.prog_counter += 1;
        word
    }

    /// Conditional move: if register `c` is not zero, register `a` takes the
    /// value of register `b`; otherwise nothing changes.
    pub fn cmov(&mut self, a: u32, b: u32, c: u32)
        requires
            a < REGISTERS,
            b < REGISTERS,
            c < REGISTERS,
        ensures
            final(self)@ == old(self)@.cmov(a, b, c),
            old(self)@.reg(c) == 0 ==> final(self)@ == old(self)@,
            old(self)@.reg(c) != 0 ==> final(self)@.reg(a) == old(self)@.reg(b),
    {
        if self.registers[c as usize] != 0 {
            self.registers[a as usize] = self.registers[b as usize];
        }
    }

    /// Segmented load: register `a` takes the word at offset `reg(c)` of
    /// segment `reg(b)`.
    pub fn seg_load(&mut self, a: u32, b: u32, c: u32)
        requires
            a < REGISTERS,
            b < REGISTERS,
            c < REGISTERS,
            old(self)@.memory.addressable(old(self)@.reg(b), old(self)@.reg(c)),
        ensures
            final(self)@ == old(self)@.seg_load(a, b, c),
            final(self)@.reg(a) == old(self)@.memory.read(old(self)@.reg(b), old(self)@.reg(c)),
    {
        self.registers[a as usize] = self.memory.read(
            self.registers[b as usize],
            self.registers[c as usize],
        );
    }

    /// Segmented store: the word at offset `reg(b)` of segment `reg(a)`
    /// takes the value of register `c`.
    pub fn seg_store(&mut self, a: u32, b: u32, c: u32)
        requires
            a < REGISTERS,
            b < REGISTERS,
            c < REGISTERS,
            old(self)@.wf(),
            old(self)@.memory.addressable(old(self)@.reg(a), old(self)@.reg(b)),
        ensures
            final(self)@ == old(self)@.seg_store(a, b, c),
            final(self)@.wf(),
    {
        self.memory.write(
            self.registers[a as usize],
            self.registers[b as usize],
            self.registers[c as usize],
        );
    }

    /// Addition: register `a` takes the sum of registers `b` and `c` modulo
    /// 2^32.
    pub fn add(&mut self, a: u32, b: u32, c: u32)
        requires
            a < REGISTERS,
            b < REGISTERS,
            c < REGISTERS,
        ensures
            final(self)@ == old(self)@.add(a, b, c),
            final(self)@.reg(a) == (old(self)@.reg(b) + old(self)@.reg(c)) % 0x1_0000_0000,
    {
        self.registers[a as usize] = self.registers[b as usize].wrapping_add(
            self.registers[c as usize],
        );
    }

    /// Multiplication: register `a` takes the product of registers `b` and
    /// `c` modulo 2^32.
    pub fn mul(&mut self, a: u32, b: u32, c: u32)
        requires
            a < REGISTERS,
            b < REGISTERS,
            c < REGISTERS,
        ensures
            final(self)@ == old(self)@.mul(a, b, c),
            final(self)@.reg(a) == (old(self)@.reg(b) * old(self)@.reg(c)) % 0x1_0000_0000,
    {
        self.registers[a as usize] = self.registers[b as usize].wrapping_mul(
            self.registers[c as usize],
        );
    }

    /// Division: register `a` takes the unsigned quotient of register `b` by
    /// register `c`, which must not be zero.
    pub fn div(&mut self, a: u32, b: u32, c: u32)
        requires
            a < REGISTERS,
            b < REGISTERS,
            c < REGISTERS,
            old(self)@.reg(c) != 0,
        ensures
            final(self)@ == old(self)@.div(a, b, c),
            final(self)@.reg(a) == old(self)@.reg(b) / old(self)@.reg(c),
    {
        self.registers[a as usize] = self.registers[b as usize] / self.registers[c as usize];
    }

    /// Bitwise not-and: register `a` takes `!(reg(b) & reg(c))`.
    pub fn b_nand(&mut self, a: u32, b: u32, c: u32)
        requires
            a < REGISTERS,
            b < REGISTERS,
            c < REGISTERS,
        ensures
            final(self)@ == old(self)@.b_nand(a, b, c),
            final(self)@.reg(a) == !(old(self)@.reg(b) & old(self)@.reg(c)),
    {
        self.registers[a as usize] = !(self.registers[b as usize] & self.registers[c as usize]);
    }

    /// Map segment: allocates a zero-filled segment of `reg(c)` words and
    /// puts its identifier in register `b`. The identifier is the most
    /// recently released one if any is waiting, else the table's length.
    pub fn map_seg(&mut self, b: u32, c: u32)
        requires
            b < REGISTERS,
            c < REGISTERS,
            old(self)@.wf(),
            old(self)@.memory.has_room(),
        ensures
            final(self)@ == old(self)@.map_seg(b, c),
            final(self)@.wf(),
            final(self)@.reg(b) == old(self)@.memory.next_id(),
            final(self)@.memory.live(final(self)@.reg(b)),
            final(self)@.memory.segment(final(self)@.reg(b)) == Seq::new(
                old(self)@.reg(c) as nat,
                |i: int| 0u32,
            ),
    {
        let id = self.memory.allocate(self.registers[c as usize]);
        self.registers[b as usize] = id;
    }

    /// Unmap segment: releases segment `reg(c)`, which must be live and not
    /// segment zero, and makes its identifier the next to be reused.
    pub fn unmap_seg(&mut self, c: u32)
        requires
            c < REGISTERS,
            old(self)@.wf(),
            old(self)@.reg(c) != 0,
            old(self)@.memory.live(old(self)@.reg(c)),
        ensures
            final(self)@ == old(self)@.unmap_seg(c),
            final(self)@.wf(),
    {
        let freed_location = self.registers[c as usize];
        self.memory.release(freed_location);
    }

    /// Output: returns the byte held in register `c`, which must not exceed
    /// 255, for the host to emit.
    pub fn output(&self, c: u32) -> (byte: u8)
        requires
            c < REGISTERS,
            self@.reg(c) <= 255,
        ensures
            byte == self@.reg(c),
    {
        self.registers[c as usize] as u8
    }

    /// Input: register `c` takes the byte that the host read, or all ones
    /// where the input had ended.
    pub fn input(&mut self, c: u32, byte: Option<u8>)
        requires
            c < REGISTERS,
        ensures
            final(self)@ == old(self)@.input(c, byte),
            byte matches Some(value) ==> final(self)@.reg(c) == value,
            byte is None ==> final(self)@.reg(c) == END_OF_INPUT,
    {
        match byte {
            Some(value) => self.registers[c as usize] = value as u32,
            None => self.registers[c as usize] = END_OF_INPUT,
        }
    }

    /// Load program: segment zero takes a copy of segment `reg(b)` and the
    /// program counter takes register `c`. With `reg(b) == 0` nothing is
    /// copied and only the program counter changes.
    pub fn load_prog(&mut self, b: u32, c: u32)
        requires
            b < REGISTERS,
            c < REGISTERS,
            old(self)@.wf(),
            old(self)@.reg(b) != 0 ==> old(self)@.memory.live(0) && old(self)@.memory.live(
                old(self)@.reg(b),
            ),
        ensures
            final(self)@ == old(self)@.load_prog(b, c),
            final(self)@.wf(),
            old(self)@.reg(b) == 0 ==> final(self)@.memory == old(self)@.memory,
            final(self)@.pc == old(self)@.reg(c),
    {
        let location = self.registers[b as usize];
        if location != 0 {
            self.memory.replace_zero_from(location);
        }
        self.prog_counter = self.registers[c as usize] as usize;
    }

    /// Load value: register `location` takes `val`.
    pub fn load_val(&mut self, location: u32, val: u32)
        requires
            location < REGISTERS,
        ensures
            final(self)@ == old(self)@.load_val(location, val),
            final(self)@.reg(location) == val,
    {
        self.registers[location as usize] = val;
    }
}

} // verus!
