//! Instruction decoding and execution: field extraction over 32-bit code
//! words, the single-step function and the run loop.

use crate::fault::Fault;
use crate::segments::{
    lemma_allocate_wf, lemma_release_wf, lemma_replace_zero_wf, lemma_write_wf,
};
use crate::states::{Machine, State, REGISTERS};
use vstd::arithmetic::power2::pow2;
use vstd::bits::{
    lemma_u32_low_bits_mask_is_mod, lemma_u32_pow2_no_overflow, lemma_u32_shl_is_mul,
    lemma_u32_shr_is_div, low_bits_mask,
};
use vstd::prelude::*;

verus! {

/// A contiguous bit field inside a code word: `width` bits starting at bit
/// `lsb`, bit 0 being the least significant.
#[derive(Clone, Copy, Debug, PartialEq, Eq, Structural)]
pub struct Field {
    pub width: u32,
    pub lsb: u32,
}

impl Field {
    /// The field lies where shifts of a 32-bit word are defined.
    pub open spec fn wf(self) -> bool {
        self.width < 32 && self.lsb < 32
    }
}

/// Register A of every instruction but load value: bits 6 to 8.
pub open spec fn spec_ra() -> Field {
    Field { width: 3, lsb: 6 }
}

/// Register A of every instruction but load value: bits 6 to 8.
#[verifier::when_used_as_spec(spec_ra)]
pub fn ra() -> (field: Field)
    ensures
        field == spec_ra(),
{
    Field { width: 3, lsb: 6 }
}

/// Register B: bits 3 to 5.
pub open spec fn spec_rb() -> Field {
    Field { width: 3, lsb: 3 }
}

/// Register B: bits 3 to 5.
#[verifier::when_used_as_spec(spec_rb)]
pub fn rb() -> (field: Field)
    ensures
        field == spec_rb(),
{
    Field { width: 3, lsb: 3 }
}

/// Register C: bits 0 to 2.
pub open spec fn spec_rc() -> Field {
    Field { width: 3, lsb: 0 }
}

/// Register C: bits 0 to 2.
#[verifier::when_used_as_spec(spec_rc)]
pub fn rc() -> (field: Field)
    ensures
        field == spec_rc(),
{
    Field { width: 3, lsb: 0 }
}

/// Register A of the load value instruction: bits 25 to 27.
pub open spec fn spec_rl() -> Field {
    Field { width: 3, lsb: 25 }
}

/// Register A of the load value instruction: bits 25 to 27.
#[verifier::when_used_as_spec(spec_rl)]
pub fn rl() -> (field: Field)
    ensures
        field == spec_rl(),
{
    Field { width: 3, lsb: 25 }
}

/// Immediate value of the load value instruction: bits 0 to 24.
pub open spec fn spec_vl() -> Field {
    Field { width: 25, lsb: 0 }
}

/// Immediate value of the load value instruction: bits 0 to 24.
#[verifier::when_used_as_spec(spec_vl)]
pub fn vl() -> (field: Field)
    ensures
        field == spec_vl(),
{
    Field { width: 25, lsb: 0 }
}

/// Opcode: bits 28 to 31.
pub open spec fn spec_op() -> Field {
    Field { width: 4, lsb: 28 }
}

/// Opcode: bits 28 to 31.
#[verifier::when_used_as_spec(spec_op)]
pub fn op() -> (field: Field)
    ensures
        field == spec_op(),
{
    Field { width: 4, lsb: 28 }
}

/// The operations of the instruction set, in the order of their numbers.
#[derive(Clone, Copy, Debug, PartialEq, Eq, Structural)]
pub enum Opcode {
    CMov,
    SegLoad,
    SegStore,
    Add,
    Mul,
    Div,
    BNand,
    Halt,
    MapSeg,
    UnmapSeg,
    Output,
    Input,
    LoadProg,
    LoadVal,
}

impl Opcode {
    /// The number that encodes this operation.
    pub open spec fn number(self) -> u32 {
        match self {
            Opcode::CMov => 0,
            Opcode::SegLoad => 1,
            Opcode::SegStore => 2,
            Opcode::Add => 3,
            Opcode::Mul => 4,
            Opcode::Div => 5,
            Opcode::BNand => 6,
            Opcode::Halt => 7,
            Opcode::MapSeg => 8,
            Opcode::UnmapSeg => 9,
            Opcode::Output => 10,
            Opcode::Input => 11,
            Opcode::LoadProg => 12,
            Opcode::LoadVal => 13,
        }
    }

    /// The operation that `val` encodes, if any.
    pub open spec fn of(val: u32) -> Option<Opcode> {
        if val == 0 {
            Some(Opcode::CMov)
        } else if val == 1 {
            Some(Opcode::SegLoad)
        } else if val == 2 {
            Some(Opcode::SegStore)
        } else if val == 3 {
            Some(Opcode::Add)
        } else if val == 4 {
            Some(Opcode::Mul)
        } else if val == 5 {
            Some(Opcode::Div)
        } else if val == 6 {
            Some(Opcode::BNand)
        } else if val == 7 {
            Some(Opcode::Halt)
        } else if val == 8 {
            Some(Opcode::MapSeg)
        } else if val == 9 {
            Some(Opcode::UnmapSeg)
        } else if val == 10 {
            Some(Opcode::Output)
        } else if val == 11 {
            Some(Opcode::Input)
        } else if val == 12 {
            Some(Opcode::LoadProg)
        } else if val == 13 {
            Some(Opcode::LoadVal)
        } else {
            None
        }
    }

    /// Decodes an opcode number. Numbers above 13 encode no operation.
    pub fn from(val: u32) -> (decoded: Result<Opcode, Fault>)
        ensures
            decoded is Ok <==> val <= 13,
            decoded matches Ok(op) ==> op.number() == val && Opcode::of(val) == Some(op),
            decoded matches Err(fault) ==> fault == Fault::InvalidOpcode,
    {
        match val {
            0 => Ok(Opcode::CMov),
            1 => Ok(Opcode::SegLoad),
            2 => Ok(Opcode::SegStore),
            3 => Ok(Opcode::Add),
            4 => Ok(Opcode::Mul),
            5 => Ok(Opcode::Div),
            6 => Ok(Opcode::BNand),
            7 => Ok(Opcode::Halt),
            8 => Ok(Opcode::MapSeg),
            9 => Ok(Opcode::UnmapSeg),
            10 => Ok(Opcode::Output),
            11 => Ok(Opcode::Input),
            12 => Ok(Opcode::LoadProg),
            13 => Ok(Opcode::LoadVal),
            _ => Err(Fault::InvalidOpcode),
        }
    }
}

/// The word whose `bits` low-order bits are set and whose other bits are
/// clear.
pub open spec fn spec_mask(bits: u32) -> u32 {
    ((1u32 << bits) - 1) as u32
}

/// The value of `field` inside `instruction`.
pub open spec fn spec_get(field: Field, instruction: u32) -> u32 {
    (instruction >> field.lsb) & spec_mask(field.width)
}

/// Builds the mask whose `bits` low-order bits are set.
pub fn mask(bits: u32) -> (m: u32)
    requires
        bits < 32,
    ensures
        m == spec_mask(bits),
{
    assert(1u32 << bits >= 1) by (bit_vector)
        requires
            bits < 32,
    ;
    (1u32 << bits) - 1
}

/// Extracts the value of `field` from `instruction`.
pub fn get(field: &Field, instruction: u32) -> (value: u32)
    requires
        field.wf(),
    ensures
        value == spec_get(*field, instruction),
{
    (instruction >> field.lsb) & mask(field.width)
}

/// Field extraction in arithmetic: the value of a field is the word
/// divided by 2^lsb, rounded down, modulo 2^width.
pub proof fn lemma_get_is_div_mod(field: Field, instruction: u32)
    requires
        field.wf(),
    ensures
        spec_mask(field.width) == pow2(field.width as nat) - 1,
        spec_get(field, instruction) == (instruction as nat / pow2(field.lsb as nat)) % pow2(
            field.width as nat,
        ),
{
    let width = field.width;
    let shifted = instruction >> field.lsb;
    lemma_u32_pow2_no_overflow(width as nat);
    lemma_u32_shl_is_mul(1u32, width);
    lemma_u32_shr_is_div(instruction, field.lsb);
    lemma_u32_low_bits_mask_is_mod(shifted, width as nat);
    assert(spec_mask(width) == low_bits_mask(width as nat) as u32);
}

/// What the host has to do after the machine has executed an instruction.
#[derive(Clone, Copy, Debug, PartialEq, Eq, Structural)]
pub enum Action {
    /// Nothing: the machine can execute the next instruction.
    Continue,
    /// Stop with success.
    Halt,
    /// Emit this byte on the output.
    Output(u8),
    /// Read one byte from the input and hand it to `State::input` together
    /// with this register index.
    Input(u32),
}

/// How an instruction ended: with the host's next action, or with the
/// fault that stopped it.
pub type Outcome = Result<Action, Fault>;

/// The register fields of a code word are register indices, the opcode
/// field is below 16 and the immediate value is below 2^25.
pub proof fn lemma_field_ranges(word: u32)
    ensures
        spec_get(ra(), word) < REGISTERS,
        spec_get(rb(), word) < REGISTERS,
        spec_get(rc(), word) < REGISTERS,
        spec_get(rl(), word) < REGISTERS,
        spec_get(op(), word) < 16,
        spec_get(vl(), word) < 0x200_0000,
{
    assert(((word >> 6u32) & (((1u32 << 3u32) - 1) as u32)) < 8) by (bit_vector);
    assert(((word >> 3u32) & (((1u32 << 3u32) - 1) as u32)) < 8) by (bit_vector);
    assert(((word >> 0u32) & (((1u32 << 3u32) - 1) as u32)) < 8) by (bit_vector);
    assert(((word >> 25u32) & (((1u32 << 3u32) - 1) as u32)) < 8) by (bit_vector);
    assert(((word >> 28u32) & (((1u32 << 4u32) - 1) as u32)) < 16) by (bit_vector);
    assert(((word >> 0u32) & (((1u32 << 25u32) - 1) as u32)) < 0x200_0000) by (bit_vector);
}

/// The machine and the outcome after the instruction `operation` of the
/// code word `word` is executed on `m`, the program counter of `m` having
/// moved past the word already.
pub open spec fn execute(m: Machine, operation: Opcode, word: u32) -> (Machine, Outcome) {
    let a = spec_get(ra(), word);
    let b = spec_get(rb(), word);
    let c = spec_get(rc(), word);
    match operation {
        Opcode::CMov => (m.cmov(a, b, c), Ok(Action::Continue)),
        Opcode::SegLoad => if m.memory.addressable(m.reg(b), m.reg(c)) {
            (m.seg_load(a, b, c), Ok(Action::Continue))
        } else {
            (m, Err(Fault::SegmentAccess))
        },
        Opcode::SegStore => if m.memory.addressable(m.reg(a), m.reg(b)) {
            (m.seg_store(a, b, c), Ok(Action::Continue))
        } else {
            (m, Err(Fault::SegmentAccess))
        },
        Opcode::Add => (m.add(a, b, c), Ok(Action::Continue)),
        Opcode::Mul => (m.mul(a, b, c), Ok(Action::Continue)),
        Opcode::Div => if m.reg(c) != 0 {
            (m.div(a, b, c), Ok(Action::Continue))
        } else {
            (m, Err(Fault::DivideByZero))
        },
        Opcode::BNand => (m.b_nand(a, b, c), Ok(Action::Continue)),
        Opcode::Halt => (m, Ok(Action::Halt)),
        Opcode::MapSeg => if m.memory.has_room() {
            (m.map_seg(b, c), Ok(Action::Continue))
        } else {
            (m, Err(Fault::IdentifiersExhausted))
        },
        Opcode::UnmapSeg => if m.reg(c) != 0 && m.memory.live(m.reg(c)) {
            (m.unmap_seg(c), Ok(Action::Continue))
        } else {
            (m, Err(Fault::Unmap))
        },
        Opcode::Output => if m.reg(c) <= 255 {
            (m, Ok(Action::Output(m.reg(c) as u8)))
        } else {
            (m, Err(Fault::OutputRange))
        },
        Opcode::Input => (m, Ok(Action::Input(c))),
        Opcode::LoadProg => if m.reg(b) == 0 || m.memory.live(m.reg(b)) {
            (m.load_prog(b, c), Ok(Action::Continue))
        } else {
            (m, Err(Fault::LoadProgram))
        },
        Opcode::LoadVal => (
            m.load_val(spec_get(rl(), word), spec_get(vl(), word)),
            Ok(Action::Continue),
        ),
    }
}

/// One step of the machine: the word at the program counter is fetched,
/// the program counter moves past it, and the instruction is executed.
///
/// Where the program counter indexes no word of segment zero the machine
/// stays as it is. Every other fault leaves the machine as it was after
/// the fetch, so that the faulting word lies just before the program
/// counter.
pub open spec fn step(m: Machine) -> (Machine, Outcome) {
    if !m.fetchable() {
        (m, Err(Fault::ProgramCounter))
    } else {
        let word = m.current_word();
        match Opcode::of(spec_get(op(), word)) {
            Some(operation) => execute(m.advance(), operation, word),
            None => (m.advance(), Err(Fault::InvalidOpcode)),
        }
    }
}

/// Fetches, decodes and executes one instruction.
///
/// Returns what the host has to do next, or the fault that stopped the
/// instruction. Input is not read here: on `Action::Input(c)` the host
/// reads a byte and calls `State::input` with `c`.
pub fn decode_inst(state: &mut State) -> (outcome: Outcome)
    requires
        old(state)@.wf(),
    ensures
        (final(state)@, outcome) == step(old(state)@),
        final(state)@.wf(),
{
    if !state.can_fetch() {
        return Err(Fault::ProgramCounter);
    }
    let inst = state.get_instruction();
    proof {
        lemma_field_ranges(inst);
    }
    let operation = match Opcode::from(get(&op(), inst)) {
        Ok(operation) => operation,
        Err(fault) => {
            return Err(fault);
        },
    };
    let a = get(&ra(), inst);
    let b = get(&rb(), inst);
    let c = get(&rc(), inst);
    match operation {
        Opcode::CMov => {
            state.cmov(a, b, c);
            Ok(Action::Continue)
        },
        Opcode::SegLoad => {
            if !state.is_addressable(state.register(b), state.register(c)) {
                return Err(Fault::SegmentAccess);
            }
            state.seg_load(a, b, c);
            Ok(Action::Continue)
        },
        Opcode::SegStore => {
            if !state.is_addressable(state.register(a), state.register(b)) {
                return Err(Fault::SegmentAccess);
            }
            state.seg_store(a, b, c);
            Ok(Action::Continue)
        },
        Opcode::Add => {
            state.add(a, b, c);
            Ok(Action::Continue)
        },
        Opcode::Mul => {
            state.mul(a, b, c);
            Ok(Action::Continue)
        },
        Opcode::Div => {
            if state.register(c) == 0 {
                return Err(Fault::DivideByZero);
            }
            state.div(a, b, c);
            Ok(Action::Continue)
        },
        Opcode::BNand => {
            state.b_nand(a, b, c);
            Ok(Action::Continue)
        },
        Opcode::Halt => Ok(Action::Halt),
        Opcode::MapSeg => {
            if !state.has_room() {
                return Err(Fault::IdentifiersExhausted);
            }
            state.map_seg(b, c);
            Ok(Action::Continue)
        },
        Opcode::UnmapSeg => {
            let id = state.register(c);
            if id == 0 || !state.is_live(id) {
                return Err(Fault::Unmap);
            }
            state.unmap_seg(c);
            Ok(Action::Continue)
        },
        Opcode::Output => {
            if state.register(c) > 255 {
                return Err(Fault::OutputRange);
            }
            Ok(Action::Output(state.output(c)))
        },
        Opcode::Input => Ok(Action::Input(c)),
        Opcode::LoadProg => {
            let id = state.register(b);
            if id != 0 && !state.is_live(id) {
                return Err(Fault::LoadProgram);
            }
            state.load_prog(b, c);
            Ok(Action::Continue)
        },
        Opcode::LoadVal => {
            state.load_val(get(&rl(), inst), get(&vl(), inst));
            Ok(Action::Continue)
        },
    }
}

/// The machine and the outcome after it has run until an instruction asks
/// something of the host or faults, for at most `budget` instructions.
///
/// The outcome is `Ok(Action::Continue)` exactly when the budget ran out
/// first.
pub open spec fn run_model(m: Machine, budget: nat) -> (Machine, Outcome)
    decreases budget,
{
    if budget == 0 {
        (m, Ok(Action::Continue))
    } else {
        let (next, outcome) = step(m);
        if outcome == Ok::<Action, Fault>(Action::Continue) {
            run_model(next, (budget - 1) as nat)
        } else {
            (next, outcome)
        }
    }
}

/// Runs the machine until an instruction halts it, asks for input or
/// output, or faults, but for no more than `budget` instructions.
///
/// Returns `Ok(Action::Continue)` where the budget ran out first; the host
/// then calls again to go on. After `Action::Output` or `Action::Input` the
/// host performs the transfer and calls again.
pub fn run(state: &mut State, budget: u64) -> (outcome: Outcome)
    requires
        old(state)@.wf(),
    ensures
        (final(state)@, outcome) == run_model(old(state)@, budget as nat),
        final(state)@.wf(),
{
    let mut remaining = budget;
    while remaining > 0
        invariant
            state@.wf(),
            run_model(old(state)@, budget as nat) == run_model(state@, remaining as nat),
        decreases remaining,
    {
        match decode_inst(state) {
            Ok(Action::Continue) => {
                remaining -= 1;
            },
            outcome => {
                return outcome;
            },
        }
    }
    Ok(Action::Continue)
}

/// A step keeps the machine well formed and never removes segment zero.
pub proof fn lemma_step_preserves(m: Machine)
    requires
        m.wf(),
    ensures
        step(m).0.wf(),
        m.memory.live(0) ==> step(m).0.memory.live(0),
{
    if m.fetchable() {
        let word = m.current_word();
        let n = m.advance();
        lemma_field_ranges(word);
        let a = spec_get(ra(), word);
        let b = spec_get(rb(), word);
        let c = spec_get(rc(), word);
        match Opcode::of(spec_get(op(), word)) {
            Some(Opcode::SegStore) => {
                if n.memory.addressable(n.reg(a), n.reg(b)) {
                    lemma_write_wf(n.memory, n.reg(a), n.reg(b), n.reg(c));
                }
            },
            Some(Opcode::MapSeg) => {
                if n.memory.has_room() {
                    lemma_allocate_wf(n.memory, n.reg(c));
                }
            },
            Some(Opcode::UnmapSeg) => {
                if n.reg(c) != 0 && n.memory.live(n.reg(c)) {
                    lemma_release_wf(n.memory, n.reg(c));
                }
            },
            Some(Opcode::LoadProg) => {
                if n.reg(b) != 0 && n.memory.live(n.reg(b)) {
                    lemma_replace_zero_wf(n.memory, n.reg(b));
                }
            },
            _ => {},
        }
    }
}

/// A run keeps the machine well formed and never removes segment zero.
pub proof fn lemma_run_preserves(m: Machine, budget: nat)
    requires
        m.wf(),
    ensures
        run_model(m, budget).0.wf(),
        m.memory.live(0) ==> run_model(m, budget).0.memory.live(0),
    decreases budget,
{
    if budget > 0 {
        lemma_step_preserves(m);
        if step(m).1 == Ok::<Action, Fault>(Action::Continue) {
            lemma_run_preserves(step(m).0, (budget - 1) as nat);
        }
    }
}

/// Running in two instalments is running once: where the first budget
/// runs out, a second run from the machine it left gives what one run
/// with the sum of the budgets gives; where the first run ends for
/// another reason, a larger budget changes nothing.
pub proof fn lemma_run_resumes(m: Machine, first: nat, second: nat)
    ensures
        run_model(m, first + second) == if run_model(m, first).1 == Ok::<Action, Fault>(
            Action::Continue,
        ) {
            run_model(run_model(m, first).0, second)
        } else {
            run_model(m, first)
        },
    decreases first,
{
    if first > 0 {
        if step(m).1 == Ok::<Action, Fault>(Action::Continue) {
            lemma_run_resumes(step(m).0, (first - 1) as nat, second);
            assert((first + second - 1) as nat == (first - 1) as nat + second);
        }
    }
}

/// Every instruction that is executed has an opcode from 0 to 13: a step
/// ends with the invalid-opcode fault exactly when the word at the program
/// counter carries 14 or 15 in its opcode field.
pub proof fn lemma_executed_opcode(m: Machine)
    requires
        m.fetchable(),
    ensures
        step(m).1 == Err::<Action, Fault>(Fault::InvalidOpcode) <==> spec_get(
            op(),
            m.current_word(),
        ) > 13,
        step(m).1 is Ok ==> spec_get(op(), m.current_word()) <= 13,
{
    lemma_field_ranges(m.current_word());
}

/// The code word of the load value instruction that puts the immediate
/// `value` into register `register`.
pub open spec fn load_value_word(register: u32, value: u32) -> u32 {
    (13u32 << 28u32) | (register << 25u32) | value
}

/// Load value round trip: executing the load value instruction with a
/// 25-bit immediate leaves exactly that immediate in the target register,
/// changes no other register and no segment, and moves the program counter
/// by one.
pub proof fn lemma_load_value_round_trip(m: Machine, register: u32, value: u32)
    requires
        m.wf(),
        m.fetchable(),
        register < REGISTERS,
        value < 0x200_0000,
        m.current_word() == load_value_word(register, value),
    ensures
        step(m).1 == Ok::<Action, Fault>(Action::Continue),
        step(m).0 == m.advance().with_register(register, value),
        step(m).0.reg(register) == value,
{
    let word = load_value_word(register, value);
    assert(((word >> 28u32) & (((1u32 << 4u32) - 1) as u32)) == 13 && ((word >> 25u32) & (((1u32
        << 3u32) - 1) as u32)) == register && ((word >> 0u32) & (((1u32 << 25u32) - 1) as u32))
        == value) by (bit_vector)
        requires
            register < 8,
            value < 0x200_0000,
            word == (13u32 << 28u32) | (register << 25u32) | value,
    ;
}

} // verus!
