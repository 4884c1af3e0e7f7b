use vstd::prelude::*;
use crate::instructions::{Data, Instruction, Op};
use crate::assembler::{MEMORY_CELLS, program_ok, program_view};

verus! {

/// The number of return addresses the jump buffer holds before it wraps.
pub const JUMP_SLOTS: usize = 100;

/// Why a running program stopped.
#[derive(Debug, Clone, Copy, PartialEq, Eq)]
pub enum FaultKind {
    DivisionByZero,
    Overflow,
}

/// A fault and the index of the instruction that raised it.
#[derive(Debug, Clone, Copy, PartialEq, Eq)]
pub struct Fault {
    pub kind: FaultKind,
    pub at: usize,
}

/// What the caller of one step has to do.
#[derive(Debug, Clone, PartialEq, Eq)]
pub enum Effect {
    /// Nothing: run the next step.
    Continue,
    /// Write the cell's value, if any, then the text.
    Output(Option<i32>, String),
    /// Read a number and store it in this cell with `store_input`.
    Input(usize),
    /// The program is over.
    Halt,
}

pub enum EffectModel {
    Continue,
    Output(Option<i32>, Seq<char>),
    Input(usize),
    Halt,
}

pub open spec fn effect_view(e: Effect) -> EffectModel {
    match e {
        Effect::Continue => EffectModel::Continue,
        Effect::Output(v, s) => EffectModel::Output(v, s@),
        Effect::Input(c) => EffectModel::Input(c),
        Effect::Halt => EffectModel::Halt,
    }
}

/// Memory, jump buffer with its write cursor, and instruction pointer.
pub struct Machine {
    pub memory: Vec<i32>,
    pub jumps: Vec<usize>,
    pub cursor: usize,
    pub ip: usize,
}

pub struct MachineModel {
    pub memory: Seq<i32>,
    pub jumps: Seq<usize>,
    pub cursor: usize,
    pub ip: usize,
}

impl View for Machine {
    type V = MachineModel;

    open spec fn view(&self) -> MachineModel {
        MachineModel { memory: self.memory@, jumps: self.jumps@, cursor: self.cursor, ip: self.ip }
    }
}

/// A machine state that can run program `p`.
pub open spec fn machine_ok(m: MachineModel, p: Seq<Op>) -> bool {
    &&& program_ok(p)
    &&& m.memory.len() == MEMORY_CELLS
    &&& m.jumps.len() == JUMP_SLOTS
    &&& m.cursor < JUMP_SLOTS
    &&& m.ip <= p.len()
    &&& forall|i: int| 0 <= i < JUMP_SLOTS ==> #[trigger] m.jumps[i] < p.len()
}

pub open spec fn magnitude(x: int) -> int {
    if x < 0 {
        -x
    } else {
        x
    }
}

/// Division that truncates toward zero.
pub open spec fn quotient(x: int, d: int) -> int {
    let q = magnitude(x) / magnitude(d);
    if (x < 0) == (d < 0) {
        q
    } else {
        -q
    }
}

/// The remainder of truncating division: it takes the sign of `x`.
pub open spec fn remainder(x: int, d: int) -> int {
    let r = magnitude(x) % magnitude(d);
    if x < 0 {
        -r
    } else {
        r
    }
}

pub open spec fn fits_i32(v: int) -> bool {
    i32::MIN <= v <= i32::MAX
}

pub open spec fn value_of(mem: Seq<i32>, d: Data) -> i32 {
    match d {
        Data::Address(a) => mem[a as int],
        Data::Num(n) => n,
    }
}

/// Move on to the next instruction.
pub open spec fn advance(m: MachineModel) -> MachineModel {
    MachineModel { ip: (m.ip + 1) as usize, ..m }
}

/// Store `v` in cell `c` and move on.
pub open spec fn store_then_advance(m: MachineModel, c: usize, v: int) -> MachineModel {
    MachineModel { memory: m.memory.update(c as int, v as i32), ip: (m.ip + 1) as usize, ..m }
}

/// Record the current position in the jump buffer, then continue after `t`.
pub open spec fn jump(m: MachineModel, t: usize) -> MachineModel {
    MachineModel {
        jumps: m.jumps.update(m.cursor as int, m.ip),
        cursor: ((m.cursor + 1) % (JUMP_SLOTS as int)) as usize,
        ip: (t + 1) as usize,
        ..m
    }
}

/// Step the cursor back, wrapping, and continue after the position stored there.
pub open spec fn ret(m: MachineModel) -> MachineModel {
    let c = ((m.cursor + JUMP_SLOTS - 1) % (JUMP_SLOTS as int)) as usize;
    MachineModel { cursor: c, ip: (m.jumps[c as int] + 1) as usize, ..m }
}

pub open spec fn checked_store(m: MachineModel, c: usize, v: int) -> Result<(MachineModel, EffectModel), FaultKind> {
    if fits_i32(v) {
        Ok((store_then_advance(m, c, v), EffectModel::Continue))
    } else {
        Err(FaultKind::Overflow)
    }
}

/// One instruction of `p` run on `m`; `rnd` is the number a `rand` instruction stores.
pub open spec fn step_spec(m: MachineModel, p: Seq<Op>, rnd: i32) -> Result<(MachineModel, EffectModel), FaultKind> {
    if m.ip >= p.len() {
        Ok((m, EffectModel::Halt))
    } else {
        let mem = m.memory;
        match p[m.ip as int] {
            Op::Start => Ok((advance(m), EffectModel::Continue)),
            Op::Goto(t) => Ok((jump(m, t), EffectModel::Continue)),
            Op::SetValue(c, n) => Ok((store_then_advance(m, c, n as int), EffectModel::Continue)),
            Op::GetNum(c) => Ok((advance(m), EffectModel::Input(c))),
            Op::Rand(c) => Ok((store_then_advance(m, c, rnd as int), EffectModel::Continue)),
            Op::Cmp(c, d, t, invert) => if (mem[c as int] == value_of(mem, d)) != invert {
                Ok((jump(m, t), EffectModel::Continue))
            } else {
                Ok((advance(m), EffectModel::Continue))
            },
            Op::Change(c, d) => checked_store(m, c, mem[c as int] + value_of(mem, d)),
            Op::Copy(a, b) => Ok((store_then_advance(m, b, mem[a as int] as int), EffectModel::Continue)),
            Op::Mul(c, d) => checked_store(m, c, mem[c as int] * value_of(mem, d)),
            Op::Div(c, d) => if value_of(mem, d) == 0 {
                Err(FaultKind::DivisionByZero)
            } else {
                checked_store(m, c, quotient(mem[c as int] as int, value_of(mem, d) as int))
            },
            Op::Mod(c, d) => if value_of(mem, d) == 0 {
                Err(FaultKind::DivisionByZero)
            } else if mem[c as int] == i32::MIN && value_of(mem, d) == -1 {
                Err(FaultKind::Overflow)
            } else {
                checked_store(m, c, remainder(mem[c as int] as int, value_of(mem, d) as int))
            },
            Op::Abs(c) => checked_store(m, c, magnitude(mem[c as int] as int)),
            Op::Print(c, text) => Ok((advance(m), EffectModel::Output(
                match c {
                    Some(c) => Some(mem[c as int]),
                    None => None,
                },
                text,
            ))),
            Op::Ret => Ok((ret(m), EffectModel::Continue)),
            Op::End => Ok((MachineModel { ip: p.len() as usize, ..m }, EffectModel::Halt)),
        }
    }
}

/// Relies on `rand::random::<i32>`: any value may come back.
#[verifier::external_body]
fn random_i32() -> (r: i32) {
    rand::random::<i32>()
}

fn add_checked(x: i32, y: i32) -> (r: Option<i32>)
    ensures
        r == (if fits_i32(x + y) { Some((x + y) as i32) } else { None::<i32> }),
{
    x.checked_add(y)
}

fn mul_checked(x: i32, y: i32) -> (r: Option<i32>)
    ensures
        r == (if fits_i32(x * y) { Some((x * y) as i32) } else { None::<i32> }),
{
    x.checked_mul(y)
}

fn div_checked(x: i32, y: i32) -> (r: Option<i32>)
    requires
        y != 0,
    ensures
        r == (if fits_i32(quotient(x as int, y as int)) {
            Some(quotient(x as int, y as int) as i32)
        } else {
            None::<i32>
        }),
{
    x.checked_div(y)
}

fn rem_checked(x: i32, y: i32) -> (r: Option<i32>)
    requires
        y != 0,
        !(x == i32::MIN && y == -1),
    ensures
        r == Some(remainder(x as int, y as int) as i32),
        fits_i32(remainder(x as int, y as int)),
{
    let r = x.checked_rem(y);
    proof {
        let a = magnitude(x as int);
        let b = magnitude(y as int);
        assert(0 <= a % b < b) by (nonlinear_arith)
            requires
                b > 0,
                a >= 0,
        ;
        assert(0int % b == 0) by (nonlinear_arith)
            requires
                b > 0,
        ;
        assert((x as int) * -1 == -(x as int));
        assert((y as int) * -1 == -(y as int));
    }
    r
}

fn abs_checked(x: i32) -> (r: Option<i32>)
    ensures
        r == (if fits_i32(magnitude(x as int)) { Some(magnitude(x as int) as i32) } else { None::<i32> }),
{
    if x == i32::MIN {
        None
    } else if x < 0 {
        Some(-x)
    } else {
        Some(x)
    }
}

impl Machine {
    /// Memory all zero, an empty jump buffer, and the pointer at the first instruction.
    pub fn new() -> (r: Machine)
        ensures
            r@.memory == Seq::new(MEMORY_CELLS as nat, |i: int| 0i32),
            r@.jumps == Seq::new(JUMP_SLOTS as nat, |i: int| 0usize),
            r@.cursor == 0,
            r@.ip == 0,
    {
        let memory = vec![0i32; MEMORY_CELLS];
        let jumps = vec![0usize; JUMP_SLOTS];
        let r = Machine { memory, jumps, cursor: 0, ip: 0 };
        assert(r@.memory =~= Seq::new(MEMORY_CELLS as nat, |i: int| 0i32));
        assert(r@.jumps =~= Seq::new(JUMP_SLOTS as nat, |i: int| 0usize));
        r
    }

    fn read(&self, d: Data) -> (r: i32)
        requires
            self.memory@.len() == MEMORY_CELLS,
            d matches Data::Address(a) ==> a < MEMORY_CELLS,
        ensures
            r == value_of(self.memory@, d),
    {
        match d {
            Data::Address(a) => self.memory[a],
            Data::Num(n) => n,
        }
    }

    fn store_and_advance(&mut self, c: usize, v: i32)
        requires
            c < old(self).memory@.len(),
            old(self).ip < usize::MAX,
        ensures
            final(self)@ == store_then_advance(old(self)@, c, v as int),
    {
        self.memory.set(c, v);
        self.ip = self.ip + 1;
    }

    fn store_checked(&mut self, c: usize, v: Option<i32>) -> (r: Result<Effect, Fault>)
        requires
            c < old(self).memory@.len(),
            old(self).ip < usize::MAX,
        ensures
            match v {
                Some(v) => r == Ok::<Effect, Fault>(Effect::Continue) && final(self)@
                    == store_then_advance(old(self)@, c, v as int),
                None => r == Err::<Effect, Fault>(Fault { kind: FaultKind::Overflow, at: old(self).ip })
                    && final(self)@ == old(self)@,
            },
    {
        match v {
            Some(v) => {
                self.store_and_advance(c, v);
                Ok(Effect::Continue)
            },
            None => Err(Fault { kind: FaultKind::Overflow, at: self.ip }),
        }
    }

    fn jump_to(&mut self, t: usize)
        requires
            old(self).jumps@.len() == JUMP_SLOTS,
            old(self).cursor < JUMP_SLOTS,
            t < usize::MAX,
        ensures
            final(self)@ == jump(old(self)@, t),
    {
        self.jumps.set(self.cursor, self.ip);
        self.cursor = (self.cursor + 1) % JUMP_SLOTS;
        self.ip = t + 1;
    }

    /// Runs the instruction at the pointer; a `rand` instruction stores `rnd`.
    pub fn execute(&mut self, program: &Vec<Instruction>, rnd: i32) -> (r: Result<Effect, Fault>)
        requires
            machine_ok(old(self)@, program_view(program@)),
        ensures
            machine_ok(final(self)@, program_view(program@)),
            match step_spec(old(self)@, program_view(program@), rnd) {
                Ok((m, e)) => r is Ok && final(self)@ == m && effect_view(r->Ok_0) == e,
                Err(k) => r == Err::<Effect, Fault>(Fault { kind: k, at: old(self).ip }) && final(self)@
                    == old(self)@,
            },
    {
        let ghost p = program_view(program@);
        if self.ip >= program.len() {
            return Ok(Effect::Halt);
        }
        let ip = self.ip;
        assert(p[ip as int] == program@[ip as int]@);
        assert(crate::instructions::op_cells_below(p[ip as int], MEMORY_CELLS as nat));
        assert(crate::instructions::op_targets_below(p[ip as int], p.len()));
        let r = match &program[ip] {
            Instruction::Start => {
                self.ip = ip + 1;
                Ok(Effect::Continue)
            },
            Instruction::Goto(t) => {
                self.jump_to(*t);
                Ok(Effect::Continue)
            },
            Instruction::SetValue(c, n) => {
                self.store_and_advance(*c, *n);
                Ok(Effect::Continue)
            },
            Instruction::GetNum(c) => {
                self.ip = ip + 1;
                Ok(Effect::Input(*c))
            },
            Instruction::Rand(c) => {
                self.store_and_advance(*c, rnd);
                Ok(Effect::Continue)
            },
            Instruction::Cmp(c, d, t, invert) => {
                let x = self.memory[*c];
                let y = self.read(*d);
                if (x == y) != *invert {
                    self.jump_to(*t);
                } else {
                    self.ip = ip + 1;
                }
                Ok(Effect::Continue)
            },
            Instruction::Change(c, d) => {
                let x = self.memory[*c];
                let y = self.read(*d);
                self.store_checked(*c, add_checked(x, y))
            },
            Instruction::Copy(a, b) => {
                let x = self.memory[*a];
                self.store_and_advance(*b, x);
                Ok(Effect::Continue)
            },
            Instruction::Mul(c, d) => {
                let x = self.memory[*c];
                let y = self.read(*d);
                self.store_checked(*c, mul_checked(x, y))
            },
            Instruction::Div(c, d) => {
                let x = self.memory[*c];
                let y = self.read(*d);
                if y == 0 {
                    Err(Fault { kind: FaultKind::DivisionByZero, at: ip })
                } else {
                    self.store_checked(*c, div_checked(x, y))
                }
            },
            Instruction::Mod(c, d) => {
                let x = self.memory[*c];
                let y = self.read(*d);
                if y == 0 {
                    Err(Fault { kind: FaultKind::DivisionByZero, at: ip })
                } else if x == i32::MIN && y == -1 {
                    Err(Fault { kind: FaultKind::Overflow, at: ip })
                } else {
                    self.store_checked(*c, rem_checked(x, y))
                }
            },
            Instruction::Abs(c) => {
                let x = self.memory[*c];
                self.store_checked(*c, abs_checked(x))
            },
            Instruction::Print(c, text) => {
                let v = match c {
                    Some(c) => Some(self.memory[*c]),
                    None => None,
                };
                self.ip = ip + 1;
                Ok(Effect::Output(v, text.clone()))
            },
            Instruction::Ret => {
                let c = (self.cursor + JUMP_SLOTS - 1) % JUMP_SLOTS;
                self.cursor = c;
                self.ip = self.jumps[c] + 1;
                Ok(Effect::Continue)
            },
            Instruction::End => {
                self.ip = program.len();
                Ok(Effect::Halt)
            },
        };
        proof {
            let m = self@;
            assert forall|i: int| 0 <= i < JUMP_SLOTS implies #[trigger] m.jumps[i] < p.len() by {
                assert(old(self)@.jumps[i] < p.len());
            }
        }
        r
    }

    /// Runs one instruction, drawing a random number when it is `rand`.
    pub fn step(&mut self, program: &Vec<Instruction>) -> (r: Result<Effect, Fault>)
        requires
            machine_ok(old(self)@, program_view(program@)),
        ensures
            machine_ok(final(self)@, program_view(program@)),
            exists|rnd: i32|
                match #[trigger] step_spec(old(self)@, program_view(program@), rnd) {
                    Ok((m, e)) => r is Ok && final(self)@ == m && effect_view(r->Ok_0) == e,
                    Err(k) => r == Err::<Effect, Fault>(Fault { kind: k, at: old(self).ip })
                        && final(self)@ == old(self)@,
                },
    {
        let draws = self.ip < program.len() && matches!(program[self.ip], Instruction::Rand(_));
        let rnd = if draws {
            random_i32()
        } else {
            0
        };
        self.execute(program, rnd)
    }

    /// Stores a number read for an `Input` effect.
    pub fn store_input(&mut self, cell: usize, value: i32)
        requires
            cell < old(self).memory@.len(),
        ensures
            final(self)@ == (MachineModel {
                memory: old(self)@.memory.update(cell as int, value),
                ..old(self)@
            }),
    {
        self.memory.set(cell, value);
    }
}

/// For the same memory and operand, exactly one of `cmp` and `ncmp` jumps: `cmp`
/// when the cell equals the operand, `ncmp` when it does not. A jump is seen as
/// the cursor of the jump buffer moving on.
pub proof fn lemma_cmp_ncmp_exactly_one(m: MachineModel, p: Seq<Op>, c: usize, d: Data, t: usize, rnd: i32)
    requires
        machine_ok(m, p),
        m.ip < p.len(),
        p[m.ip as int] == Op::Cmp(c, d, t, false),
        machine_ok(m, p.update(m.ip as int, Op::Cmp(c, d, t, true))),
    ensures
        ({
            let q = p.update(m.ip as int, Op::Cmp(c, d, t, true));
            let eq = m.memory[c as int] == value_of(m.memory, d);
            let cmp_jumps = step_spec(m, p, rnd)->Ok_0.0.cursor != m.cursor;
            let ncmp_jumps = step_spec(m, q, rnd)->Ok_0.0.cursor != m.cursor;
            &&& step_spec(m, p, rnd) is Ok
            &&& step_spec(m, q, rnd) is Ok
            &&& cmp_jumps == eq
            &&& ncmp_jumps == !eq
            &&& cmp_jumps != ncmp_jumps
        }),
{
}

/// A `ret` after a jump resumes right after the jump site, with the cursor back
/// where it was, whatever ran in between as long as it left the jump buffer alone.
pub proof fn lemma_ret_resumes_after_jump(m: MachineModel, t: usize, later: MachineModel)
    requires
        m.jumps.len() == JUMP_SLOTS,
        m.cursor < JUMP_SLOTS,
        m.ip < usize::MAX,
        t < usize::MAX,
        later.jumps == jump(m, t).jumps,
        later.cursor == jump(m, t).cursor,
    ensures
        ret(later).ip == m.ip + 1,
        ret(later).cursor == m.cursor,
{
}

/// Running `goto` and then a `ret` at the jump's landing point comes back to the
/// instruction after the `goto`.
pub proof fn lemma_goto_then_ret(m: MachineModel, p: Seq<Op>, t: usize, rnd: i32)
    requires
        machine_ok(m, p),
        m.ip < p.len(),
        p[m.ip as int] == Op::Goto(t),
        t + 1 < p.len(),
        p[t + 1] == Op::Ret,
    ensures
        ({
            let after_goto = step_spec(m, p, rnd)->Ok_0.0;
            let after_ret = step_spec(after_goto, p, rnd)->Ok_0.0;
            &&& step_spec(m, p, rnd) is Ok
            &&& step_spec(after_goto, p, rnd) is Ok
            &&& after_ret.ip == m.ip + 1
            &&& after_ret.cursor == m.cursor
        }),
{
    lemma_ret_resumes_after_jump(m, t, jump(m, t));
}

/// The jump buffer and cursor after recording each of `sites` in turn.
pub open spec fn push_sites(jumps: Seq<usize>, cursor: usize, sites: Seq<usize>) -> (Seq<usize>, usize)
    decreases sites.len(),
{
    if sites.len() == 0 {
        (jumps, cursor)
    } else {
        let (js, c) = push_sites(jumps, cursor, sites.drop_last());
        (js.update(c as int, sites.last()), ((c + 1) % (JUMP_SLOTS as int)) as usize)
    }
}

/// The slot that the `j`-th `ret` in a row reads, counting from one.
pub open spec fn slot_back(cursor: usize, j: int) -> int {
    (cursor - j) % (JUMP_SLOTS as int)
}

/// The jump buffer keeps only the most recent sites: after any number of jumps,
/// the `j`-th `ret` in a row (for `j` up to the capacity) reads the `j`-th most
/// recent site, so older sites have been overwritten rather than kept.
pub proof fn lemma_buffer_keeps_recent(jumps: Seq<usize>, cursor: usize, sites: Seq<usize>, j: int)
    requires
        jumps.len() == JUMP_SLOTS,
        cursor < JUMP_SLOTS,
        1 <= j <= JUMP_SLOTS,
        j <= sites.len(),
    ensures
        push_sites(jumps, cursor, sites).0.len() == JUMP_SLOTS,
        push_sites(jumps, cursor, sites).1 == (cursor + sites.len()) % (JUMP_SLOTS as int),
        push_sites(jumps, cursor, sites).0[slot_back(push_sites(jumps, cursor, sites).1, j)]
            == sites[sites.len() - j],
    decreases sites.len(),
{
    lemma_push_shape(jumps, cursor, sites.drop_last());
    let (js, c) = push_sites(jumps, cursor, sites.drop_last());
    if j > 1 {
        lemma_buffer_keeps_recent(jumps, cursor, sites.drop_last(), j - 1);
    }
}

proof fn lemma_push_shape(jumps: Seq<usize>, cursor: usize, sites: Seq<usize>)
    requires
        jumps.len() == JUMP_SLOTS,
        cursor < JUMP_SLOTS,
    ensures
        push_sites(jumps, cursor, sites).0.len() == JUMP_SLOTS,
        push_sites(jumps, cursor, sites).1 == (cursor + sites.len()) % (JUMP_SLOTS as int),
    decreases sites.len(),
{
    if sites.len() > 0 {
        lemma_push_shape(jumps, cursor, sites.drop_last());
    }
}

/// The machine after `k` `ret` instructions in a row.
pub open spec fn rets(m: MachineModel, k: nat) -> MachineModel
    decreases k,
{
    if k == 0 {
        m
    } else {
        ret(rets(m, (k - 1) as nat))
    }
}

proof fn lemma_rets_shape(m: MachineModel, k: nat)
    requires
        m.jumps.len() == JUMP_SLOTS,
        m.cursor < JUMP_SLOTS,
    ensures
        rets(m, k).jumps == m.jumps,
        rets(m, k).cursor == slot_back(m.cursor, k as int),
        k >= 1 ==> rets(m, k).ip == (m.jumps[slot_back(m.cursor, k as int)] + 1) as usize,
    decreases k,
{
    if k > 0 {
        lemma_rets_shape(m, (k - 1) as nat);
    }
}

/// A taken jump (a `goto`, or a `cmp`/`ncmp` whose test holds) records its own
/// index in the jump buffer exactly as `push_sites` does.
pub proof fn lemma_jump_records_site(m: MachineModel, p: Seq<Op>, rnd: i32)
    requires
        machine_ok(m, p),
        m.ip < p.len(),
        p[m.ip as int] is Goto || (p[m.ip as int] matches Op::Cmp(c, d, _, inv) && (m.memory[c as int]
            == value_of(m.memory, d)) != inv),
    ensures
        step_spec(m, p, rnd) is Ok,
        step_spec(m, p, rnd)->Ok_0.0.jumps == push_sites(m.jumps, m.cursor, seq![m.ip]).0,
        step_spec(m, p, rnd)->Ok_0.0.cursor == push_sites(m.jumps, m.cursor, seq![m.ip]).1,
{
    assert(seq![m.ip].drop_last() =~= Seq::<usize>::empty());
    assert(push_sites(m.jumps, m.cursor, Seq::<usize>::empty()) == (m.jumps, m.cursor));
    assert(seq![m.ip].last() == m.ip);
}

/// A `ret` is the machine's `ret`: it steps the cursor back and resumes after
/// the site stored there.
pub proof fn lemma_ret_step(m: MachineModel, p: Seq<Op>, rnd: i32)
    requires
        machine_ok(m, p),
        m.ip < p.len(),
        p[m.ip as int] == Op::Ret,
    ensures
        step_spec(m, p, rnd) == Ok::<(MachineModel, EffectModel), FaultKind>((rets(m, 1), EffectModel::Continue)),
{
    assert(rets(m, 1) == ret(rets(m, 0)));
}

/// Recording sites one call at a time is recording them all at once.
pub proof fn lemma_push_sites_append(jumps: Seq<usize>, cursor: usize, a: Seq<usize>, b: Seq<usize>)
    ensures
        push_sites(jumps, cursor, a + b) == push_sites(
            push_sites(jumps, cursor, a).0,
            push_sites(jumps, cursor, a).1,
            b,
        ),
    decreases b.len(),
{
    if b.len() == 0 {
        assert(a + b =~= a);
    } else {
        assert((a + b).drop_last() =~= a + b.drop_last());
        lemma_push_sites_append(jumps, cursor, a, b.drop_last());
    }
}

/// The buffer never grows: after at least as many jumps as it has slots, the
/// `k`-th `ret` in a row resumes after the `((k - 1) % capacity + 1)`-th most
/// recent site. With capacity + 1 jumps, the first `ret` resumes after the last
/// jump, and so does the (capacity + 1)-th: the first site was overwritten.
pub proof fn lemma_rets_after_jumps(
    jumps: Seq<usize>,
    cursor: usize,
    sites: Seq<usize>,
    m: MachineModel,
    k: nat,
)
    requires
        jumps.len() == JUMP_SLOTS,
        cursor < JUMP_SLOTS,
        sites.len() >= JUMP_SLOTS,
        k >= 1,
        m.jumps == push_sites(jumps, cursor, sites).0,
        m.cursor == push_sites(jumps, cursor, sites).1,
    ensures
        rets(m, k).ip == (sites[sites.len() - 1 - ((k - 1) % (JUMP_SLOTS as int))] + 1) as usize,
{
    let j = (k - 1) % (JUMP_SLOTS as int) + 1;
    lemma_push_shape(jumps, cursor, sites);
    lemma_buffer_keeps_recent(jumps, cursor, sites, j);
    lemma_rets_shape(m, k);
    assert(slot_back(m.cursor, k as int) == slot_back(m.cursor, j));
}

/// Nested jumps do not disturb an outer return: after a jump from site `g`,
/// then fewer than capacity further jumps, then one `ret` for each of them, the
/// next `ret` resumes right after `g`, with the cursor back where it was before
/// the jump from `g`.
pub proof fn lemma_nested_jumps_return_to_site(
    jumps: Seq<usize>,
    cursor: usize,
    g: usize,
    inner: Seq<usize>,
    m: MachineModel,
)
    requires
        jumps.len() == JUMP_SLOTS,
        cursor < JUMP_SLOTS,
        inner.len() < JUMP_SLOTS,
        m.jumps == push_sites(jumps, cursor, seq![g] + inner).0,
        m.cursor == push_sites(jumps, cursor, seq![g] + inner).1,
    ensures
        rets(m, inner.len() + 1).ip == (g + 1) as usize,
        rets(m, inner.len() + 1).cursor == cursor,
{
    let sites = seq![g] + inner;
    let j = inner.len() + 1;
    lemma_push_shape(jumps, cursor, sites);
    lemma_buffer_keeps_recent(jumps, cursor, sites, j as int);
    lemma_rets_shape(m, j as nat);
    assert(sites[sites.len() - j] == g);
}

} // verus!
