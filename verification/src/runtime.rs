//! The interpreter: program counter, value stack, constant table and
//! procedure table, and the meaning of every instruction.
//!
//! The machine never prints and never computes on doubles itself. Where an
//! instruction asks for either, the step hands the host an [`Effect`] that
//! says what to print or which operation to carry out on which bit patterns.
//!
//! The machine never ends the process either. What a host asks for by an
//! index or an opcode of its own (`call`, `load_const`, `load_proc`,
//! `execute`) must be well formed: the `requires` says so, and the host can
//! test it beforehand (`proc_count`, `constant_count`, `fatal_fault`). What
//! the bytecode asks for is taken as it comes: `step`, `run` and
//! `try_execute` hand back the fault, fatal or not, and leave the machine as
//! it was, for the host to end the process on.

pub mod arith;
pub mod balance;
pub mod calls;
pub mod debug;
pub mod proc;
pub mod stack;
pub mod steps;

use vstd::prelude::*;
use crate::fault::Fault;
use crate::opcodes::Instruction;
use crate::runtime::arith::{arith_s64, branch_taken, compute_s64, decide_branch, float_op};
use crate::runtime::proc::{
    NULL_PC,
    Proc,
    address_offset,
    address_proc,
    code_address,
    is_code_address,
    lemma_address_parts,
    lemma_code_address,
    make_address,
    split_address,
};
use crate::runtime::stack::{Stack, StackView};
use crate::util::Cursor;
use crate::value::Value;

verus! {

/// An entry of the constant table.
#[derive(Clone, Copy, PartialEq, Eq, Structural, Debug)]
pub enum Constant {
    /// A signed integer.
    S64(i64),
    /// A double, held as its IEEE-754 bit pattern.
    F64(u64),
}

impl Constant {
    /// The stack word that `LOAD_CONST` writes for the constant.
    pub open spec fn word(self) -> Value {
        match self {
            Constant::S64(v) => Value::of_s64(v),
            Constant::F64(bits) => Value { bits },
        }
    }

    /// The floating-point constant with the given IEEE-754 bit pattern.
    pub fn from_float_bits(bits: u64) -> (c: Constant)
        ensures
            c == Constant::F64(bits),
    {
        Constant::F64(bits)
    }

    /// The stack word that `LOAD_CONST` writes for the constant.
    pub fn to_value(&self) -> (v: Value)
        ensures
            v == self.word(),
    {
        match self {
            Constant::S64(v) => Value::from_s64(*v),
            Constant::F64(bits) => Value::from_float_bits(*bits),
        }
    }
}

impl From<i64> for Constant {
    /// The integer constant `value`.
    fn from(value: i64) -> (c: Constant) {
        Constant::S64(value)
    }
}

impl vstd::std_specs::convert::FromSpecImpl<i64> for Constant {
    open spec fn obeys_from_spec() -> bool {
        true
    }

    open spec fn from_spec(value: i64) -> Constant {
        Constant::S64(value)
    }
}

/// The five arithmetic operations on doubles.
#[derive(Clone, Copy, PartialEq, Eq, Structural, Debug)]
pub enum FloatOp {
    Add,
    Sub,
    Mul,
    Div,
    Rem,
}

/// What a step leaves for the host to do.
#[derive(Clone, Copy, PartialEq, Eq, Structural, Debug)]
pub enum Effect {
    /// Print this integer on a line of its own.
    PrintS64(i64),
    /// Print the double with this bit pattern on a line of its own.
    PrintF64(u64),
    /// Print the procedure reference with this code address on a line of its
    /// own.
    PrintProc(u64),
    /// Compute `left op right` on doubles, both given as bit patterns, and
    /// store the bit pattern of the result in slot `dst`. The machine has
    /// checked that the active frame may write `dst`.
    Float { op: FloatOp, dst: i16, left: u64, right: u64 },
}

/// Why `run` came back without a fault.
#[derive(Clone, Copy, PartialEq, Eq, Structural, Debug)]
pub enum Stop {
    /// The program counter is null.
    Halted,
    /// The step budget is used up.
    StepLimit,
    /// The last step left this for the host to do.
    Effect(Effect),
}

/// The machine as a mathematical value.
pub struct RuntimeView {
    /// The address of the next instruction; null when halted.
    pub pc: u64,
    pub stack: StackView,
    pub constants: Seq<Constant>,
    pub procs: Seq<Proc>,
}

impl RuntimeView {
    /// The machine's invariant: that of its stack.
    pub open spec fn wf(self) -> bool {
        self.stack.wf()
    }

    /// The machine with another program counter.
    pub open spec fn at(self, pc: u64) -> RuntimeView {
        RuntimeView { pc, ..self }
    }

    /// The machine with another stack, where there is one.
    pub open spec fn on(self, stack: Result<StackView, Fault>) -> Result<RuntimeView, Fault> {
        match stack {
            Ok(s) => Ok(RuntimeView { stack: s, ..self }),
            Err(e) => Err(e),
        }
    }

    /// The code from `addr` to the end of the procedure it points into;
    /// `None` where `addr` points into no procedure. An address may point
    /// just past the last byte of a procedure: nothing is left to read there.
    pub open spec fn code_from(self, addr: u64) -> Option<Seq<u8>> {
        if is_code_address(addr) && address_proc(addr) < self.procs.len() && address_offset(addr)
            <= self.procs[address_proc(addr) as int]@.len() {
            Some(self.procs[address_proc(addr) as int]@.skip(address_offset(addr) as int))
        } else {
            None
        }
    }

    /// The fault of a program counter that points into no procedure.
    pub open spec fn pc_fault(self) -> Fault {
        if self.pc == NULL_PC {
            Fault::Halted
        } else {
            Fault::PcOutOfRange
        }
    }

    /// Whether `target` is the address of the first byte of a procedure.
    pub open spec fn is_proc_ref(self, target: u64) -> bool {
        is_code_address(target) && address_proc(target) < self.procs.len() && address_offset(
            target,
        ) == 0
    }

    /// The opcode at the program counter, and the machine with the program
    /// counter past it.
    pub open spec fn fetch(self) -> Result<(RuntimeView, u8), Fault> {
        match self.code_from(self.pc) {
            Some(bytes) if bytes.len() > 0 => Ok((self.at((self.pc + 1) as u64), bytes[0])),
            _ => Err(self.pc_fault()),
        }
    }

    /// The instruction that `opcode` makes with the operand record at the
    /// program counter, and the address just past that record. A byte that is
    /// no opcode is refused before the program counter is looked at.
    pub open spec fn decode(self, opcode: u8) -> Result<(Instruction, u64), Fault> {
        match Instruction::operand_len(opcode) {
            None => Err(Fault::UnknownOpcode(opcode)),
            Some(n) => match self.code_from(self.pc) {
                None => Err(self.pc_fault()),
                Some(bytes) => if n <= bytes.len() {
                    Ok((Instruction::decode(opcode, bytes).unwrap(), (self.pc + n) as u64))
                } else {
                    Err(Fault::TruncatedInstruction)
                },
            },
        }
    }

    /// Reading a slot of the active frame.
    pub open spec fn load(self, slot: i16) -> Result<Value, Fault> {
        self.stack.load(slot)
    }

    /// Writing a slot of the active frame.
    pub open spec fn store(self, slot: i16, value: Value) -> Result<RuntimeView, Fault> {
        self.on(self.stack.store(slot, value))
    }

    /// Writing constant number `index` to slot `dst`.
    pub open spec fn load_const(self, dst: i16, index: u32) -> Result<RuntimeView, Fault> {
        if index < self.constants.len() {
            self.store(dst, self.constants[index as int].word())
        } else {
            Err(Fault::BadConstant(index))
        }
    }

    /// Writing a reference to procedure number `index` to slot `dst`.
    pub open spec fn load_proc(self, dst: i16, index: u32) -> Result<RuntimeView, Fault> {
        if index < self.procs.len() {
            self.store(dst, Value { bits: code_address(index as nat, 0) })
        } else {
            Err(Fault::BadProc(index))
        }
    }

    /// Calling the procedure whose first byte is at `target`: a frame is
    /// pushed that records the program counter as return address, and the
    /// program counter goes to `target`.
    pub open spec fn push_call_frame(self, target: u64) -> Result<RuntimeView, Fault> {
        if self.is_proc_ref(target) {
            self.at(target).on(self.stack.push_frame(self.pc))
        } else {
            Err(Fault::NotAProcedure)
        }
    }

    /// Calling procedure number `index`.
    pub open spec fn call(self, index: u32) -> Result<RuntimeView, Fault> {
        if index < self.procs.len() {
            self.push_call_frame(code_address(index as nat, 0))
        } else {
            Err(Fault::BadProc(index))
        }
    }

    /// Moving the program counter by `offset` bytes within its procedure.
    /// The end of the procedure is the farthest it may go.
    pub open spec fn branch_rel(self, offset: i32) -> Result<RuntimeView, Fault> {
        match self.code_from(self.pc) {
            None => Err(self.pc_fault()),
            Some(bytes) => if 0 <= address_offset(self.pc) + offset && offset <= bytes.len() {
                Ok(self.at((self.pc + offset) as u64))
            } else {
                Err(Fault::BranchOutOfRange)
            },
        }
    }

    /// Returning: the active frame is popped and the program counter goes to
    /// the return address it recorded. With no frame left to pop, the machine
    /// halts.
    pub open spec fn ret(self) -> RuntimeView {
        match self.stack.return_call() {
            Ok((s, ra)) => RuntimeView { pc: ra, stack: s, ..self },
            Err(_) => self.at(NULL_PC),
        }
    }

    /// An integer instruction: both operands are read, then the result is
    /// written.
    pub open spec fn binary_s64(self, i: Instruction, dst: i16, left: i16, right: i16) -> Result<
        RuntimeView,
        Fault,
    > {
        match self.load(left) {
            Err(e) => Err(e),
            Ok(l) => match self.load(right) {
                Err(e) => Err(e),
                Ok(r) => match arith_s64(i, l.spec_s64(), r.spec_s64()) {
                    Err(e) => Err(e),
                    Ok(v) => self.store(dst, Value::of_s64(v)),
                },
            },
        }
    }

    /// A floating-point instruction: both operands are read and the
    /// destination is checked; the operation itself is left to the host.
    pub open spec fn binary_float(self, i: Instruction, dst: i16, left: i16, right: i16) -> Result<
        Effect,
        Fault,
    > {
        match self.load(left) {
            Err(e) => Err(e),
            Ok(l) => match self.load(right) {
                Err(e) => Err(e),
                Ok(r) => if self.stack.slot_index(dst) is Some {
                    Ok(Effect::Float { op: float_op(i), dst, left: l.bits, right: r.bits })
                } else {
                    Err(Fault::InvalidSlot)
                },
            },
        }
    }

    /// A conditional branch: the slot is read as an integer and tested.
    pub open spec fn branch_if(self, i: Instruction, src: i16, offset: i32) -> Result<
        RuntimeView,
        Fault,
    > {
        match self.load(src) {
            Err(e) => Err(e),
            Ok(v) => if branch_taken(i, v.spec_s64()) {
                self.branch_rel(offset)
            } else {
                Ok(self)
            },
        }
    }

    /// A machine that goes on with nothing for the host to do.
    pub open spec fn quiet(r: Result<RuntimeView, Fault>) -> Result<
        (RuntimeView, Option<Effect>),
        Fault,
    > {
        match r {
            Ok(m) => Ok((m, None)),
            Err(e) => Err(e),
        }
    }

    /// A machine that is unchanged but for what it leaves the host to do.
    pub open spec fn tell(self, r: Result<Effect, Fault>) -> Result<
        (RuntimeView, Option<Effect>),
        Fault,
    > {
        match r {
            Ok(effect) => Ok((self, Some(effect))),
            Err(e) => Err(e),
        }
    }

    /// What an instruction does to a machine whose program counter already
    /// stands past the instruction.
    pub open spec fn apply(self, i: Instruction) -> Result<(RuntimeView, Option<Effect>), Fault> {
        match i {
            Instruction::Alloc { size } => Self::quiet(self.on(self.stack.reserve(size as nat))),
            Instruction::Move { dst, src } => match self.load(src) {
                Ok(v) => Self::quiet(self.store(dst, v)),
                Err(e) => Err(e),
            },
            Instruction::MoveValue { dst, value } => Self::quiet(
                self.store(dst, Value::of_s64(value)),
            ),
            Instruction::LoadConst { dst, index } => Self::quiet(self.load_const(dst, index)),
            Instruction::LoadProc { dst, index } => Self::quiet(self.load_proc(dst, index)),
            Instruction::Call { index } => Self::quiet(self.call(index)),
            Instruction::CallDynamic { src } => match self.load(src) {
                Ok(v) => Self::quiet(self.push_call_frame(v.bits)),
                Err(e) => Err(e),
            },
            Instruction::Branch { offset } => Self::quiet(self.branch_rel(offset)),
            Instruction::BranchZ { src, offset }
            | Instruction::BranchNz { src, offset }
            | Instruction::BranchLz { src, offset }
            | Instruction::BranchLez { src, offset }
            | Instruction::BranchGz { src, offset }
            | Instruction::BranchGez { src, offset } => Self::quiet(self.branch_if(i, src, offset)),
            Instruction::Return => Ok((self.ret(), None)),
            Instruction::AddS64 { dst, left, right }
            | Instruction::SubS64 { dst, left, right }
            | Instruction::MulS64 { dst, left, right }
            | Instruction::DivS64 { dst, left, right }
            | Instruction::RemS64 { dst, left, right } => Self::quiet(
                self.binary_s64(i, dst, left, right),
            ),
            Instruction::AddF64 { dst, left, right }
            | Instruction::SubF64 { dst, left, right }
            | Instruction::MulF64 { dst, left, right }
            | Instruction::DivF64 { dst, left, right }
            | Instruction::RemF64 { dst, left, right } => self.tell(
                self.binary_float(i, dst, left, right),
            ),
            Instruction::PrintS64 { src } => match self.load(src) {
                Ok(v) => Ok((self, Some(Effect::PrintS64(v.spec_s64())))),
                Err(e) => Err(e),
            },
            Instruction::PrintF64 { src } => match self.load(src) {
                Ok(v) => Ok((self, Some(Effect::PrintF64(v.bits)))),
                Err(e) => Err(e),
            },
            Instruction::PrintProc { src } => match self.load(src) {
                Ok(v) => Ok((self, Some(Effect::PrintProc(v.bits)))),
                Err(e) => Err(e),
            },
            Instruction::Halt => Ok((self.at(NULL_PC), None)),
            Instruction::Breakpoint => Ok((self, None)),
        }
    }

    /// What a decoded instruction does, `next` being the address just past
    /// it.
    pub open spec fn perform(self, i: Instruction, next: u64) -> Result<
        (RuntimeView, Option<Effect>),
        Fault,
    > {
        self.at(next).apply(i)
    }

    /// What the instruction with this opcode does, the program counter
    /// standing at its operand record.
    pub open spec fn execute(self, opcode: u8) -> Result<(RuntimeView, Option<Effect>), Fault> {
        match self.decode(opcode) {
            Ok((i, next)) => self.perform(i, next),
            Err(e) => Err(e),
        }
    }

    /// The fatal fault that the instruction with this opcode brings about,
    /// the program counter standing at its operand record; `None` where it
    /// brings about none.
    pub open spec fn fatal_fault(self, opcode: u8) -> Option<Fault> {
        match self.execute(opcode) {
            Err(fault) => if fault.is_fatal() {
                Some(fault)
            } else {
                None
            },
            Ok(_) => None,
        }
    }

    /// One whole instruction: fetch, decode, execute.
    pub open spec fn step(self) -> Result<(RuntimeView, Option<Effect>), Fault> {
        match self.fetch() {
            Ok((m, opcode)) => m.execute(opcode),
            Err(e) => Err(e),
        }
    }

    /// Up to `fuel` instructions, stopping at the first that halts the
    /// machine, leaves the host something to do, or faults. A fault leaves
    /// the machine as it was before the faulting instruction.
    pub open spec fn run(self, fuel: nat) -> (RuntimeView, Result<Stop, Fault>)
        decreases fuel,
    {
        if self.pc == NULL_PC {
            (self, Ok(Stop::Halted))
        } else if fuel == 0 {
            (self, Ok(Stop::StepLimit))
        } else {
            match self.step() {
                Err(e) => (self, Err(e)),
                Ok((m, None)) => m.run((fuel - 1) as nat),
                Ok((m, Some(effect))) => (m, Ok(Stop::Effect(effect))),
            }
        }
    }
}

/// The interpreter.
pub struct Runtime {
    /// Program counter
    pc: u64,
    stack: Stack,
    constants: Vec<Constant>,
    procs: Vec<Proc>,
}

impl View for Runtime {
    type V = RuntimeView;

    closed spec fn view(&self) -> RuntimeView {
        RuntimeView {
            pc: self.pc,
            stack: self.stack@,
            constants: self.constants@,
            procs: self.procs@,
        }
    }
}

/// The number of stack words that `Runtime::new` reserves.
pub const DEFAULT_STACK_SIZE: usize = 4096;

impl Runtime {
    /// The machine's invariant, which the constructors establish and every
    /// method keeps.
    pub open spec fn wf(&self) -> bool {
        self@.wf()
    }

    /// A halted machine with empty tables and a stack of
    /// `DEFAULT_STACK_SIZE` zeroed words, none of them reserved.
    pub fn new() -> (rt: Runtime)
        ensures
            rt.wf(),
            rt@.pc == NULL_PC,
            rt@.constants.len() == 0,
            rt@.procs.len() == 0,
            rt@.stack.mem == Seq::new(DEFAULT_STACK_SIZE as nat, |i: int| Value { bits: 0 }),
            rt@.stack.sp == DEFAULT_STACK_SIZE,
            rt@.stack.fp.is_none(),
    {
        Runtime::with_stack_size(DEFAULT_STACK_SIZE)
    }

    /// A halted machine with empty tables and a stack of `size` zeroed
    /// words, none of them reserved.
    pub fn with_stack_size(size: usize) -> (rt: Runtime)
        ensures
            rt.wf(),
            rt@.pc == NULL_PC,
            rt@.constants.len() == 0,
            rt@.procs.len() == 0,
            rt@.stack.mem == Seq::new(size as nat, |i: int| Value { bits: 0 }),
            rt@.stack.sp == size,
            rt@.stack.fp.is_none(),
    {
        Runtime { pc: NULL_PC, stack: Stack::new(size), constants: Vec::new(), procs: Vec::new() }
    }

    /// Appends a constant to the constant table.
    pub fn push_constant(&mut self, constant: Constant)
        requires
            old(self).wf(),
        ensures
            final(self).wf(),
            final(self)@ == (RuntimeView {
                constants: old(self)@.constants.push(constant),
                ..old(self)@
            }),
    {
        self.constants.push(constant);
    }

    /// Appends a procedure to the procedure table.
    pub fn push_proc(&mut self, proc: Proc)
        requires
            old(self).wf(),
        ensures
            final(self).wf(),
            final(self)@ == (RuntimeView { procs: old(self)@.procs.push(proc), ..old(self)@ }),
    {
        self.procs.push(proc);
    }

    /// The program counter; null when the machine has halted.
    pub fn pc(&self) -> (pc: u64)
        ensures
            pc == self@.pc,
    {
        self.pc
    }

    /// Moves the program counter to `pc`, whatever is there.
    pub(crate) fn set_pc(&mut self, pc: u64)
        requires
            old(self).wf(),
        ensures
            final(self).wf(),
            final(self)@ == old(self)@.at(pc),
    {
        self.pc = pc;
    }

    /// Whether the machine has halted.
    pub fn is_halted(&self) -> (halted: bool)
        ensures
            halted == (self@.pc == NULL_PC),
    {
        self.pc == NULL_PC
    }

    /// The value stack.
    pub fn stack(&self) -> (stack: &Stack)
        ensures
            stack@ == self@.stack,
    {
        &self.stack
    }

    /// How many constants the constant table holds.
    pub fn constant_count(&self) -> (n: usize)
        ensures
            n == self@.constants.len(),
    {
        self.constants.len()
    }

    /// The constant with the given table index.
    pub fn constant(&self, index: u32) -> (c: Option<Constant>)
        ensures
            c == if index < self@.constants.len() {
                Some(self@.constants[index as int])
            } else {
                None
            },
    {
        if (index as usize) < self.constants.len() {
            Some(self.constants[index as usize])
        } else {
            None
        }
    }

    /// How many procedures the procedure table holds.
    pub fn proc_count(&self) -> (n: usize)
        ensures
            n == self@.procs.len(),
    {
        self.procs.len()
    }

    /// The procedure with the given table index.
    pub fn proc(&self, index: u32) -> (p: Option<&Proc>)
        ensures
            p.is_some() == (index < self@.procs.len()),
            p matches Some(proc) ==> *proc == self@.procs[index as int],
    {
        if (index as usize) < self.procs.len() {
            Some(&self.procs[index as usize])
        } else {
            None
        }
    }

    /// The procedure and the offset that `addr` points at, where it points
    /// into a procedure or just past its end.
    fn locate(&self, addr: u64) -> (place: Option<(usize, usize)>)
        ensures
            place.is_some() == self@.code_from(addr).is_some(),
            place matches Some((p, offset)) ==> p == address_proc(addr) && offset
                == address_offset(addr) && p < self@.procs.len() && offset
                <= self@.procs[p as int]@.len(),
    {
        match split_address(addr) {
            None => None,
            Some((p, offset)) => {
                let p: usize = p as usize;
                let offset: usize = offset as usize;
                if p < self.procs.len() && offset <= self.procs[p].len() {
                    Some((p, offset))
                } else {
                    None
                }
            },
        }
    }

    /// The fault of a program counter that points into no procedure.
    fn pc_fault(&self) -> (fault: Fault)
        ensures
            fault == self@.pc_fault(),
    {
        if self.pc == NULL_PC {
            Fault::Halted
        } else {
            Fault::PcOutOfRange
        }
    }

    /// Reads the opcode at the program counter and moves the program counter
    /// past it.
    pub fn fetch(&mut self) -> (r: Result<u8, Fault>)
        requires
            old(self).wf(),
        ensures
            final(self).wf(),
            match old(self)@.fetch() {
                Ok((m, opcode)) => r == Ok::<u8, Fault>(opcode) && final(self)@ == m,
                Err(e) => r == Err::<u8, Fault>(e) && final(self)@ == old(self)@,
            },
    {
        match self.locate(self.pc) {
            Some((p, offset)) => {
                let text = self.procs[p].text();
                if offset < text.len() {
                    proof {
                        lemma_address_parts(self.pc);
                        lemma_code_address(p as nat, (offset + 1) as nat);
                    }
                    let opcode: u8 = text[offset];
                    self.pc = self.pc + 1;
                    Ok(opcode)
                } else {
                    Err(self.pc_fault())
                }
            },
            None => Err(self.pc_fault()),
        }
    }

    /// Decodes the instruction that `opcode` makes with the operand record at
    /// the program counter, and says where the record ends.
    pub fn decode(&self, opcode: u8) -> (r: Result<(Instruction, u64), Fault>)
        ensures
            r == self@.decode(opcode),
    {
        let width: usize = match Instruction::operand_width(opcode) {
            Some(width) => width,
            None => {
                return Err(Fault::UnknownOpcode(opcode));
            },
        };
        match self.locate(self.pc) {
            None => Err(self.pc_fault()),
            Some((p, offset)) => {
                let text = self.procs[p].text();
                let mut cursor = Cursor::new(text, offset);
                match Instruction::read(opcode, &mut cursor) {
                    Err(e) => Err(e),
                    Ok(i) => {
                        proof {
                            lemma_address_parts(self.pc);
                            lemma_code_address(p as nat, (offset + width) as nat);
                        }
                        Ok((i, self.pc + width as u64))
                    },
                }
            },
        }
    }


    /// Loads the value at the given slot of the active frame.
    pub fn load(&self, slot: i16) -> (r: Result<Value, Fault>)
        requires
            self.wf(),
        ensures
            r == self@.load(slot),
    {
        self.stack.load(slot)
    }

    /// Stores a value at the given slot of the active frame. This is also how
    /// the host hands in the result of a floating-point operation.
    pub fn store(&mut self, slot: i16, value: Value) -> (r: Result<(), Fault>)
        requires
            old(self).wf(),
        ensures
            final(self).wf(),
            match old(self)@.store(slot, value) {
                Ok(m) => r.is_ok() && final(self)@ == m,
                Err(e) => r == Err::<(), Fault>(e) && final(self)@ == old(self)@,
            },
    {
        self.stack.store(slot, value)
    }

    /// Writes constant number `index`, which the constant table must hold,
    /// to slot `dst`.
    pub fn load_const(&mut self, dst: i16, index: u32) -> (r: Result<(), Fault>)
        requires
            old(self).wf(),
            index < old(self)@.constants.len(),
        ensures
            final(self).wf(),
            match old(self)@.load_const(dst, index) {
                Ok(m) => r.is_ok() && final(self)@ == m,
                Err(e) => r == Err::<(), Fault>(e) && final(self)@ == old(self)@,
            },
    {
        let value = self.constants[index as usize].to_value();
        self.stack.store(dst, value)
    }

    /// Writes a reference to procedure number `index`, which the procedure
    /// table must hold, to slot `dst`.
    pub fn load_proc(&mut self, dst: i16, index: u32) -> (r: Result<(), Fault>)
        requires
            old(self).wf(),
            index < old(self)@.procs.len(),
        ensures
            final(self).wf(),
            match old(self)@.load_proc(dst, index) {
                Ok(m) => r.is_ok() && final(self)@ == m,
                Err(e) => r == Err::<(), Fault>(e) && final(self)@ == old(self)@,
            },
    {
        self.stack.store(dst, Value::from_proc(make_address(index, 0)))
    }

    /// Whether `target` is the address of the first byte of a procedure.
    pub fn is_proc_ref(&self, target: u64) -> (is: bool)
        ensures
            is == self@.is_proc_ref(target),
    {
        match split_address(target) {
            Some((p, offset)) => (p as usize) < self.procs.len() && offset == 0,
            None => false,
        }
    }

    /// Pushes a call frame and sets the program counter to `target`. Where
    /// `target` is not the address of a procedure's first byte, it refuses.
    pub fn push_call_frame(&mut self, target: u64) -> (r: Result<(), Fault>)
        requires
            old(self).wf(),
        ensures
            final(self).wf(),
            match old(self)@.push_call_frame(target) {
                Ok(m) => r.is_ok() && final(self)@ == m,
                Err(e) => r == Err::<(), Fault>(e) && final(self)@ == old(self)@,
            },
    {
        let is_proc_ref = self.is_proc_ref(target);
        if !is_proc_ref {
            return Err(Fault::NotAProcedure);
        }
        match self.stack.push_frame(self.pc) {
            Ok(()) => {
                self.pc = target;
                Ok(())
            },
            Err(e) => Err(e),
        }
    }

    /// Calls procedure number `index`, which the procedure table must hold:
    /// pushes a frame that returns to the program counter, and sets the
    /// program counter to the procedure's first byte.
    pub fn call(&mut self, index: u32) -> (r: Result<(), Fault>)
        requires
            old(self).wf(),
            index < old(self)@.procs.len(),
        ensures
            final(self).wf(),
            match old(self)@.call(index) {
                Ok(m) => r.is_ok() && final(self)@ == m,
                Err(e) => r == Err::<(), Fault>(e) && final(self)@ == old(self)@,
            },
    {
        proof {
            lemma_code_address(index as nat, 0);
        }
        self.push_call_frame(make_address(index, 0))
    }

    /// Moves the program counter by `offset` bytes within its procedure.
    pub fn branch_rel(&mut self, offset: i32) -> (r: Result<(), Fault>)
        requires
            old(self).wf(),
        ensures
            final(self).wf(),
            match old(self)@.branch_rel(offset) {
                Ok(m) => r.is_ok() && final(self)@ == m,
                Err(e) => r == Err::<(), Fault>(e) && final(self)@ == old(self)@,
            },
    {
        match self.locate(self.pc) {
            None => Err(self.pc_fault()),
            Some((p, at)) => {
                let len: i64 = self.procs[p].len() as i64;
                let target: i64 = at as i64 + offset as i64;
                if 0 <= target && target <= len {
                    proof {
                        lemma_address_parts(self.pc);
                        lemma_code_address(p as nat, target as nat);
                    }
                    self.pc = make_address(p as u32, target as u32);
                    Ok(())
                } else {
                    Err(Fault::BranchOutOfRange)
                }
            },
        }
    }

    /// Pops the active frame and goes on at its return address; halts where
    /// no frame is left.
    fn ret(&mut self)
        requires
            old(self).wf(),
        ensures
            final(self).wf(),
            final(self)@ == old(self)@.ret(),
    {
        match self.stack.return_call() {
            Ok(ra) => {
                self.pc = ra;
            },
            Err(_) => {
                self.pc = NULL_PC;
            },
        }
    }

    /// An integer instruction: reads both operands, writes the result.
    fn binary_s64(&mut self, i: Instruction, dst: i16, left: i16, right: i16) -> (r: Result<
        (),
        Fault,
    >)
        requires
            old(self).wf(),
        ensures
            final(self).wf(),
            match old(self)@.binary_s64(i, dst, left, right) {
                Ok(m) => r.is_ok() && final(self)@ == m,
                Err(e) => r == Err::<(), Fault>(e) && final(self)@ == old(self)@,
            },
    {
        let l = match self.stack.load(left) {
            Ok(v) => v.s64(),
            Err(e) => {
                return Err(e);
            },
        };
        let r = match self.stack.load(right) {
            Ok(v) => v.s64(),
            Err(e) => {
                return Err(e);
            },
        };
        match compute_s64(i, l, r) {
            Ok(v) => self.stack.store(dst, Value::from_s64(v)),
            Err(e) => Err(e),
        }
    }

    /// A floating-point instruction: reads both operands, checks the
    /// destination, and leaves the operation to the host.
    fn binary_float(&self, i: Instruction, dst: i16, left: i16, right: i16) -> (r: Result<
        Effect,
        Fault,
    >)
        requires
            self.wf(),
        ensures
            r == self@.binary_float(i, dst, left, right),
    {
        let l = match self.stack.load(left) {
            Ok(v) => v.float_bits(),
            Err(e) => {
                return Err(e);
            },
        };
        let r = match self.stack.load(right) {
            Ok(v) => v.float_bits(),
            Err(e) => {
                return Err(e);
            },
        };
        if !self.stack.has_slot(dst) {
            return Err(Fault::InvalidSlot);
        }
        let op = match i {
            Instruction::AddF64 { .. } => FloatOp::Add,
            Instruction::SubF64 { .. } => FloatOp::Sub,
            Instruction::MulF64 { .. } => FloatOp::Mul,
            Instruction::DivF64 { .. } => FloatOp::Div,
            _ => FloatOp::Rem,
        };
        Ok(Effect::Float { op, dst, left: l, right: r })
    }

    /// A conditional branch: reads the slot as an integer and tests it.
    fn branch_if(&mut self, i: Instruction, src: i16, offset: i32) -> (r: Result<(), Fault>)
        requires
            old(self).wf(),
        ensures
            final(self).wf(),
            match old(self)@.branch_if(i, src, offset) {
                Ok(m) => r.is_ok() && final(self)@ == m,
                Err(e) => r == Err::<(), Fault>(e) && final(self)@ == old(self)@,
            },
    {
        match self.stack.load(src) {
            Err(e) => Err(e),
            Ok(v) => {
                if decide_branch(i, v.s64()) {
                    self.branch_rel(offset)
                } else {
                    Ok(())
                }
            },
        }
    }

    /// Carries out an instruction, the program counter standing past it.
    fn apply(&mut self, i: Instruction) -> (r: Result<Option<Effect>, Fault>)
        requires
            old(self).wf(),
        ensures
            final(self).wf(),
            match old(self)@.apply(i) {
                Ok((m, effect)) => r == Ok::<Option<Effect>, Fault>(effect) && final(self)@ == m,
                Err(e) => r == Err::<Option<Effect>, Fault>(e) && final(self)@ == old(self)@,
            },
    {
        let done: Result<(), Fault> = match i {
            Instruction::Alloc { size } => self.stack.reserve(size as usize),
            Instruction::Move { dst, src } => match self.stack.load(src) {
                Ok(v) => self.stack.store(dst, v),
                Err(e) => Err(e),
            },
            Instruction::MoveValue { dst, value } => self.stack.store(dst, Value::from_s64(value)),
            Instruction::LoadConst { dst, index } => if (index as usize) < self.constants.len() {
                self.load_const(dst, index)
            } else {
                Err(Fault::BadConstant(index))
            },
            Instruction::LoadProc { dst, index } => if (index as usize) < self.procs.len() {
                self.load_proc(dst, index)
            } else {
                Err(Fault::BadProc(index))
            },
            Instruction::Call { index } => if (index as usize) < self.procs.len() {
                self.call(index)
            } else {
                Err(Fault::BadProc(index))
            },
            Instruction::CallDynamic { src } => match self.stack.load(src) {
                Ok(v) => self.push_call_frame(v.proc()),
                Err(e) => Err(e),
            },
            Instruction::Branch { offset } => self.branch_rel(offset),
            Instruction::BranchZ { src, offset }
            | Instruction::BranchNz { src, offset }
            | Instruction::BranchLz { src, offset }
            | Instruction::BranchLez { src, offset }
            | Instruction::BranchGz { src, offset }
            | Instruction::BranchGez { src, offset } => self.branch_if(i, src, offset),
            Instruction::Return => {
                self.ret();
                Ok(())
            },
            Instruction::AddS64 { dst, left, right }
            | Instruction::SubS64 { dst, left, right }
            | Instruction::MulS64 { dst, left, right }
            | Instruction::DivS64 { dst, left, right }
            | Instruction::RemS64 { dst, left, right } => self.binary_s64(i, dst, left, right),
            Instruction::AddF64 { dst, left, right }
            | Instruction::SubF64 { dst, left, right }
            | Instruction::MulF64 { dst, left, right }
            | Instruction::DivF64 { dst, left, right }
            | Instruction::RemF64 { dst, left, right } => {
                return match self.binary_float(i, dst, left, right) {
                    Ok(effect) => Ok(Some(effect)),
                    Err(e) => Err(e),
                };
            },
            Instruction::PrintS64 { src } => {
                return match self.stack.load(src) {
                    Ok(v) => Ok(Some(Effect::PrintS64(v.s64()))),
                    Err(e) => Err(e),
                };
            },
            Instruction::PrintF64 { src } => {
                return match self.stack.load(src) {
                    Ok(v) => Ok(Some(Effect::PrintF64(v.float_bits()))),
                    Err(e) => Err(e),
                };
            },
            Instruction::PrintProc { src } => {
                return match self.stack.load(src) {
                    Ok(v) => Ok(Some(Effect::PrintProc(v.proc()))),
                    Err(e) => Err(e),
                };
            },
            Instruction::Halt => {
                self.pc = NULL_PC;
                Ok(())
            },
            Instruction::Breakpoint => Ok(()),
        };
        match done {
            Ok(()) => Ok(None),
            Err(e) => Err(e),
        }
    }

    /// Carries out a decoded instruction, `next` being the address just past
    /// it. On a fault the machine is left as it was.
    pub fn perform(&mut self, i: Instruction, next: u64) -> (r: Result<Option<Effect>, Fault>)
        requires
            old(self).wf(),
        ensures
            final(self).wf(),
            match old(self)@.perform(i, next) {
                Ok((m, effect)) => r == Ok::<Option<Effect>, Fault>(effect) && final(self)@ == m,
                Err(e) => r == Err::<Option<Effect>, Fault>(e) && final(self)@ == old(self)@,
            },
    {
        let saved: u64 = self.pc;
        self.pc = next;
        let r = self.apply(i);
        if r.is_err() {
            self.pc = saved;
        }
        r
    }

    /// The fatal fault that the instruction with this opcode would bring
    /// about, the program counter standing at its operand record: a byte that
    /// is no opcode, an index past its table, a call of what is no procedure,
    /// an integer division that has no result. `None` where `execute` may be
    /// called.
    pub fn fatal_fault(&self, opcode: u8) -> (fault: Option<Fault>)
        requires
            self.wf(),
        ensures
            fault == self@.fatal_fault(opcode),
    {
        let (i, _) = match self.decode(opcode) {
            Ok(decoded) => decoded,
            Err(e) => {
                return if e.is_fatal() {
                    Some(e)
                } else {
                    None
                };
            },
        };
        match i {
            Instruction::LoadConst { index, .. } => {
                if (index as usize) < self.constants.len() {
                    None
                } else {
                    Some(Fault::BadConstant(index))
                }
            },
            Instruction::LoadProc { index, .. } => {
                if (index as usize) < self.procs.len() {
                    None
                } else {
                    Some(Fault::BadProc(index))
                }
            },
            Instruction::Call { index } => {
                proof {
                    lemma_code_address(index as nat, 0);
                }
                if (index as usize) < self.procs.len() {
                    None
                } else {
                    Some(Fault::BadProc(index))
                }
            },
            Instruction::CallDynamic { src } => match self.stack.load(src) {
                Ok(v) => if self.is_proc_ref(v.proc()) {
                    None
                } else {
                    Some(Fault::NotAProcedure)
                },
                Err(_) => None,
            },
            Instruction::AddS64 { left, right, .. }
            | Instruction::SubS64 { left, right, .. }
            | Instruction::MulS64 { left, right, .. }
            | Instruction::DivS64 { left, right, .. }
            | Instruction::RemS64 { left, right, .. } => {
                let l = match self.stack.load(left) {
                    Ok(v) => v.s64(),
                    Err(_) => {
                        return None;
                    },
                };
                let r = match self.stack.load(right) {
                    Ok(v) => v.s64(),
                    Err(_) => {
                        return None;
                    },
                };
                match compute_s64(i, l, r) {
                    Ok(_) => None,
                    Err(e) => Some(e),
                }
            },
            _ => None,
        }
    }

    /// Decodes and carries out the instruction with this opcode, the program
    /// counter standing at its operand record. The instruction must bring
    /// about no fatal fault: the opcode is an assigned one, no index lies
    /// past its table, what is called is a procedure, and no integer is
    /// divided by zero nor the least integer by minus one; `fatal_fault`
    /// tells. What is left to go wrong is handed back, and the machine is
    /// then left as it was.
    pub fn execute(&mut self, opcode: u8) -> (r: Result<Option<Effect>, Fault>)
        requires
            old(self).wf(),
            old(self)@.fatal_fault(opcode) is None,
        ensures
            final(self).wf(),
            match old(self)@.execute(opcode) {
                Ok((m, effect)) => r == Ok::<Option<Effect>, Fault>(effect) && final(self)@ == m,
                Err(e) => r == Err::<Option<Effect>, Fault>(e) && final(self)@ == old(self)@
                    && !e.is_fatal(),
            },
    {
        match self.decode(opcode) {
            Ok((i, next)) => self.perform(i, next),
            Err(e) => Err(e),
        }
    }

    /// Decodes and carries out the instruction with this opcode like
    /// `execute`, whatever the opcode and the operands are: it tests for the
    /// fatal fault first, hands it back where there is one, and calls
    /// `execute` where there is none.
    pub fn try_execute(&mut self, opcode: u8) -> (r: Result<Option<Effect>, Fault>)
        requires
            old(self).wf(),
        ensures
            final(self).wf(),
            match old(self)@.execute(opcode) {
                Ok((m, effect)) => r == Ok::<Option<Effect>, Fault>(effect) && final(self)@ == m,
                Err(e) => r == Err::<Option<Effect>, Fault>(e) && final(self)@ == old(self)@,
            },
    {
        match self.fatal_fault(opcode) {
            Some(fault) => Err(fault),
            None => self.execute(opcode),
        }
    }

    /// Runs one whole instruction. On a fault the machine is left as it was,
    /// with the program counter at the faulting instruction.
    pub fn step(&mut self) -> (r: Result<Option<Effect>, Fault>)
        requires
            old(self).wf(),
        ensures
            final(self).wf(),
            match old(self)@.step() {
                Ok((m, effect)) => r == Ok::<Option<Effect>, Fault>(effect) && final(self)@ == m,
                Err(e) => r == Err::<Option<Effect>, Fault>(e) && final(self)@ == old(self)@,
            },
    {
        let saved: u64 = self.pc;
        let opcode = match self.fetch() {
            Ok(opcode) => opcode,
            Err(e) => {
                return Err(e);
            },
        };
        let r = match self.decode(opcode) {
            Ok((i, next)) => self.perform(i, next),
            Err(e) => Err(e),
        };
        if r.is_err() {
            self.pc = saved;
        }
        r
    }

    /// Runs until the machine halts, a step leaves the host something to do,
    /// a step faults, or `max_steps` instructions have run.
    pub fn run(&mut self, max_steps: u64) -> (r: Result<Stop, Fault>)
        requires
            old(self).wf(),
        ensures
            final(self).wf(),
            (final(self)@, r) == old(self)@.run(max_steps as nat),
    {
        let mut left: u64 = max_steps;
        while self.pc != NULL_PC && left > 0
            invariant
                self.wf(),
                self@.run(left as nat) == old(self)@.run(max_steps as nat),
            decreases left,
        {
            match self.step() {
                Err(e) => {
                    return Err(e);
                },
                Ok(Some(effect)) => {
                    return Ok(Stop::Effect(effect));
                },
                Ok(None) => {},
            }
            left = left - 1;
        }
        if self.pc == NULL_PC {
            Ok(Stop::Halted)
        } else {
            Ok(Stop::StepLimit)
        }
    }

    /// Runs like `run`: the interpreter's debug loop has one behaviour with
    /// the plain one.
    pub fn run_debug(&mut self, max_steps: u64) -> (r: Result<Stop, Fault>)
        requires
            old(self).wf(),
        ensures
            final(self).wf(),
            (final(self)@, r) == old(self)@.run(max_steps as nat),
    {
        self.run(max_steps)
    }
}

} // verus!
