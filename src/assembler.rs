use vstd::prelude::*;
use crate::symbols::{SymbolTable, resolve_spec, get_or_set_id};
use crate::machine::{MachineModel, jump};
use crate::syntax::{split_spec, split_spaces, same_text, trim_of, trim_line, lemma_split_nonempty};
use crate::instructions::{
    decoded_in_range,
    AsmErrorKind, Data, Decoded, Instruction, Op, cell_operand_spec, cmp_spec, copy_spec,
    decoded_view, op_cells_below, op_targets_below, ins_abs, ins_change, ins_cmp, ins_copy, ins_div, ins_getnum, ins_mod, ins_mul,
    ins_print, ins_rand, ins_set, print_spec, set_spec, single_cell_spec, tokens_view,
};

verus! {

/// The number of memory cells, and so of distinct variables a program may name.
pub const MEMORY_CELLS: usize = 8192;

/// Where and why assembly stopped; `line` counts from zero.
#[derive(Debug, Clone, Copy, PartialEq, Eq)]
pub struct AsmError {
    pub kind: AsmErrorKind,
    pub line: usize,
}

/// The state of assembly between two lines.
pub struct AsmModel {
    pub prog: Seq<Op>,
    pub origins: Seq<usize>,
    pub vars: Seq<Seq<char>>,
    pub names: Seq<Seq<char>>,
    pub labels: Seq<Option<usize>>,
}

/// Instructions read so far, with label references still given as label ids.
pub struct Assembler {
    pub instructions: Vec<Instruction>,
    pub origins: Vec<usize>,
    pub variables: SymbolTable,
    pub label_names: SymbolTable,
    pub labels: Vec<Option<usize>>,
}

impl View for Assembler {
    type V = AsmModel;

    open spec fn view(&self) -> AsmModel {
        AsmModel {
            prog: self.instructions@.map_values(|i: Instruction| i@),
            origins: self.origins@,
            vars: self.variables@,
            names: self.label_names@,
            labels: self.labels@,
        }
    }
}

/// A program the machine can run: it opens with `Start`, every cell is in memory
/// and every jump target is an instruction.
pub open spec fn program_ok(p: Seq<Op>) -> bool {
    &&& p.len() >= 1
    &&& p[0] == Op::Start
    &&& p.len() < usize::MAX
    &&& forall|k: int| 0 <= k < p.len() ==> op_cells_below(#[trigger] p[k], MEMORY_CELLS as nat)
    &&& forall|k: int| 0 <= k < p.len() ==> op_targets_below(#[trigger] p[k], p.len())
}

pub open spec fn model_wf(m: AsmModel) -> bool {
    &&& crate::symbols::distinct_names(m.vars)
    &&& crate::symbols::distinct_names(m.names)
    &&& m.labels.len() == m.names.len()
    &&& m.prog.len() == m.origins.len()
    &&& m.prog.len() >= 1
    &&& m.prog[0] == Op::Start
    &&& forall|k: int| 0 <= k < m.prog.len() ==> op_cells_below(#[trigger] m.prog[k], m.vars.len())
    &&& forall|k: int| 0 <= k < m.prog.len() ==> op_targets_below(#[trigger] m.prog[k], m.names.len())
    &&& forall|k: int| 0 <= k < m.labels.len() ==> (#[trigger] m.labels[k] matches Some(t) ==> t < m.prog.len())
}

/// One line adds at most one instruction and at most one label name.
pub open spec fn grows_by_one(a: AsmModel, b: AsmModel) -> bool {
    &&& a.prog.len() <= b.prog.len() <= a.prog.len() + 1
    &&& a.names.len() <= b.names.len() <= a.names.len() + 1
}

/// Appends a decoded instruction, read from line `index`.
pub open spec fn emit(st: AsmModel, vars: Seq<Seq<char>>, op: Op, index: usize) -> AsmModel {
    AsmModel { prog: st.prog.push(op), origins: st.origins.push(index), vars: vars, ..st }
}

pub open spec fn emit_decoded(st: AsmModel, d: Decoded, index: usize) -> Result<AsmModel, AsmErrorKind> {
    match d.1 {
        Ok(op) => Ok(emit(st, d.0, op, index)),
        Err(e) => Err(e),
    }
}

/// Label slots for label names that have just been seen: none bound yet.
pub open spec fn grow_labels(labels: Seq<Option<usize>>, names: Seq<Seq<char>>) -> Seq<Option<usize>> {
    if names.len() > labels.len() {
        labels.push(None)
    } else {
        labels
    }
}

/// The mnemonics whose instructions name cells only.
pub open spec fn data_mnemonic(m: Seq<char>) -> bool {
    m == "print"@ || m == "printl"@ || m == "set"@ || m == "getnum"@ || m == "rand"@ || m
        == "abs"@ || m == "change"@ || m == "mul"@ || m == "div"@ || m == "mod"@ || m == "copy"@
}

pub open spec fn with_cell(tab: Seq<Seq<char>>, ps: Seq<Seq<char>>, m: Seq<char>) -> Decoded {
    let (t, c) = single_cell_spec(tab, ps);
    (t, match c {
        Some(c) => Ok(if m == "getnum"@ {
            Op::GetNum(c)
        } else if m == "rand"@ {
            Op::Rand(c)
        } else {
            Op::Abs(c)
        }),
        None => Err(AsmErrorKind::MissingArgument),
    })
}

pub open spec fn with_cell_operand(tab: Seq<Seq<char>>, ps: Seq<Seq<char>>, m: Seq<char>) -> Decoded {
    let (t, cd) = cell_operand_spec(tab, ps);
    (t, match cd {
        Ok((c, d)) => Ok(if m == "change"@ {
            Op::Change(c, d)
        } else if m == "mul"@ {
            Op::Mul(c, d)
        } else if m == "div"@ {
            Op::Div(c, d)
        } else {
            Op::Mod(c, d)
        }),
        Err(e) => Err(e),
    })
}

/// How the instruction of a data mnemonic is decoded.
pub open spec fn data_decode_spec(tab: Seq<Seq<char>>, m: Seq<char>, ps: Seq<Seq<char>>) -> Decoded {
    if m == "print"@ {
        print_spec(tab, ps, ""@)
    } else if m == "printl"@ {
        print_spec(tab, ps, "\n"@)
    } else if m == "set"@ {
        set_spec(tab, ps)
    } else if m == "getnum"@ || m == "rand"@ || m == "abs"@ {
        with_cell(tab, ps, m)
    } else if m == "change"@ || m == "mul"@ || m == "div"@ || m == "mod"@ {
        with_cell_operand(tab, ps, m)
    } else {
        copy_spec(tab, ps)
    }
}

/// `label`, `goto`, `cmp` and `ncmp`: the lines that name labels.
pub open spec fn jump_mnemonic(m: Seq<char>) -> bool {
    m == "label"@ || m == "goto"@ || m == "cmp"@ || m == "ncmp"@
}

pub open spec fn jump_line_spec(st: AsmModel, m: Seq<char>, ps: Seq<Seq<char>>, index: usize) -> Result<
    AsmModel,
    AsmErrorKind,
> {
    if m == "label"@ || m == "goto"@ {
        if ps.len() < 1 {
            Err(AsmErrorKind::MissingArgument)
        } else {
            let (names, id) = resolve_spec(st.names, ps[0]);
            let labels = grow_labels(st.labels, names);
            if m == "label"@ {
                Ok(
                    AsmModel {
                        names: names,
                        labels: labels.update(id as int, Some((st.prog.len() - 1) as usize)),
                        ..st
                    },
                )
            } else {
                Ok(
                    AsmModel {
                        names: names,
                        labels: labels,
                        ..emit(st, st.vars, Op::Goto(id as usize), index)
                    },
                )
            }
        }
    } else {
        let (vars, names, r) = cmp_spec(st.vars, st.names, ps, m == "ncmp"@);
        match r {
            Ok(op) => Ok(
                AsmModel { names: names, labels: grow_labels(st.labels, names), ..emit(st, vars, op, index) },
            ),
            Err(e) => Err(e),
        }
    }
}

/// What one trimmed line does to the state of assembly.
pub open spec fn line_spec(st: AsmModel, line: Seq<char>, index: usize) -> Result<AsmModel, AsmErrorKind> {
    let toks = split_spec(line);
    let m = toks[0];
    let ps = toks.drop_first();
    if m.len() == 0 {
        Ok(st)
    } else if data_mnemonic(m) {
        emit_decoded(st, data_decode_spec(st.vars, m, ps), index)
    } else if jump_mnemonic(m) {
        jump_line_spec(st, m, ps, index)
    } else if m == "ret"@ {
        Ok(emit(st, st.vars, Op::Ret, index))
    } else if m == "end"@ {
        Ok(emit(st, st.vars, Op::End, index))
    } else {
        Err(AsmErrorKind::UnknownInstruction)
    }
}

/// A line, then the limit on the number of variables.
pub open spec fn checked_line_spec(st: AsmModel, line: Seq<char>, index: usize) -> Result<AsmModel, AsmErrorKind> {
    match line_spec(st, line, index) {
        Ok(s) => if s.vars.len() > MEMORY_CELLS {
            Err(AsmErrorKind::TooManyVariables)
        } else {
            Ok(s)
        },
        Err(e) => Err(e),
    }
}

impl Assembler {
    /// An empty program: just the opening `Start`.
    pub fn new() -> (r: Assembler)
        ensures
            model_wf(r@),
            r@.prog == seq![Op::Start],
            r@.origins == seq![0usize],
            r@.vars.len() == 0,
            r@.names.len() == 0,
            r@.labels.len() == 0,
    {
        let mut instructions: Vec<Instruction> = Vec::new();
        instructions.push(Instruction::Start);
        let mut origins: Vec<usize> = Vec::new();
        origins.push(0);
        let r = Assembler {
            instructions,
            origins,
            variables: SymbolTable::new(),
            label_names: SymbolTable::new(),
            labels: Vec::new(),
        };
        assert(r@.prog =~= seq![Op::Start]);
        assert(r@.origins =~= seq![0usize]);
        r
    }

    fn push_op(&mut self, ins: Instruction, index: usize)
        ensures
            final(self)@ == (AsmModel {
                prog: old(self)@.prog.push(ins@),
                origins: old(self)@.origins.push(index),
                ..old(self)@
            }),
    {
        self.instructions.push(ins);
        self.origins.push(index);
        proof {
            assert(final(self)@.prog =~= old(self)@.prog.push(ins@));
        }
    }

    fn grow_labels(&mut self)
        ensures
            final(self)@ == (AsmModel { labels: grow_labels(old(self)@.labels, old(self)@.names), ..old(self)@ }),
    {
        if self.label_names.len() > self.labels.len() {
            self.labels.push(None);
        }
    }

    /// Appends an instruction whose cells and label ids are in range.
    fn emit_checked(&mut self, ins: Instruction, index: usize)
        requires
            model_wf(old(self)@),
            op_cells_below(ins@, old(self)@.vars.len()),
            op_targets_below(ins@, old(self)@.names.len()),
        ensures
            final(self)@ == emit(old(self)@, old(self)@.vars, ins@, index),
            model_wf(final(self)@),
    {
        let ghost st = self@;
        self.push_op(ins, index);
        proof {
            let p = self@.prog;
            assert(p.len() == st.prog.len() + 1);
            assert forall|k: int| 0 <= k < p.len() implies op_cells_below(
                #[trigger] p[k],
                self@.vars.len(),
            ) && op_targets_below(p[k], self@.names.len()) by {
                if k < st.prog.len() {
                    assert(p[k] == st.prog[k]);
                }
            }
            assert(self@ =~= emit(st, st.vars, ins@, index));
        }
    }

    fn data_instruction(m: &str, params: &Vec<String>, variables: &mut SymbolTable) -> (r: Result<
        Instruction,
        AsmErrorKind,
    >)
        requires
            crate::instructions::has_room(old(variables)),
            data_mnemonic(m@),
        ensures
            final(variables).wf(),
            decoded_in_range(old(variables)@, final(variables)@, r),
            (final(variables)@, decoded_view(r)) == data_decode_spec(
                old(variables)@,
                m@,
                tokens_view(params@),
            ),
    {
        if same_text(m, "print") {
            ins_print(params, variables, "")
        } else if same_text(m, "printl") {
            ins_print(params, variables, "\n")
        } else if same_text(m, "set") {
            ins_set(params, variables)
        } else if same_text(m, "getnum") {
            ins_getnum(params, variables)
        } else if same_text(m, "rand") {
            ins_rand(params, variables)
        } else if same_text(m, "abs") {
            ins_abs(params, variables)
        } else if same_text(m, "change") {
            ins_change(params, variables)
        } else if same_text(m, "mul") {
            ins_mul(params, variables)
        } else if same_text(m, "div") {
            ins_div(params, variables)
        } else if same_text(m, "mod") {
            ins_mod(params, variables)
        } else {
            ins_copy(params, variables)
        }
    }

    fn decode_data(&mut self, m: &str, params: &Vec<String>, index: usize) -> (r: Result<(), AsmErrorKind>)
        requires
            model_wf(old(self)@),
            old(self)@.vars.len() <= MEMORY_CELLS,
            data_mnemonic(m@),
        ensures
            match emit_decoded(old(self)@, data_decode_spec(old(self)@.vars, m@, tokens_view(params@)), index) {
                Ok(s) => r is Ok && final(self)@ == s && model_wf(s) && grows_by_one(old(self)@, s),
                Err(k) => r == Err::<(), AsmErrorKind>(k),
            },
    {
        let ghost st = self@;
        let ins = match Self::data_instruction(m, params, &mut self.variables) {
            Ok(i) => i,
            Err(e) => return Err(e),
        };
        assert(self@ == (AsmModel { vars: self@.vars, ..st }));
        assert(model_wf(self@)) by {
            let p = self@.prog;
            assert forall|k: int| 0 <= k < p.len() implies op_cells_below(
                #[trigger] p[k],
                self@.vars.len(),
            ) by {
                assert(op_cells_below(st.prog[k], st.vars.len()));
            }
        }
        self.emit_checked(ins, index);
        Ok(())
    }

    fn decode_jump(&mut self, m: &str, params: &Vec<String>, index: usize) -> (r: Result<(), AsmErrorKind>)
        requires
            model_wf(old(self)@),
            old(self)@.vars.len() <= MEMORY_CELLS,
            old(self)@.names.len() + 4 < usize::MAX,
            jump_mnemonic(m@),
        ensures
            match jump_line_spec(old(self)@, m@, tokens_view(params@), index) {
                Ok(s) => r is Ok && final(self)@ == s && model_wf(s) && grows_by_one(old(self)@, s),
                Err(k) => r == Err::<(), AsmErrorKind>(k),
            },
    {
        let ghost st = self@;
        let ins: Instruction;
        if same_text(m, "label") || same_text(m, "goto") {
            if params.len() < 1 {
                return Err(AsmErrorKind::MissingArgument);
            }
            let is_label = same_text(m, "label");
            let id = get_or_set_id(params[0].clone(), &mut self.label_names);
            self.grow_labels();
            assert(model_wf(self@)) by {
                let p = self@.prog;
                assert forall|k: int| 0 <= k < p.len() implies op_targets_below(
                    #[trigger] p[k],
                    self@.names.len(),
                ) by {
                    assert(op_targets_below(st.prog[k], st.names.len()));
                }
                assert forall|k: int| 0 <= k < self@.labels.len() implies (
                    #[trigger] self@.labels[k] matches Some(t) ==> t < self@.prog.len()) by {
                    if k < st.labels.len() {
                        assert(self@.labels[k] == st.labels[k]);
                    }
                }
            }
            if is_label {
                let here = self.instructions.len() - 1;
                self.labels.set(id, Some(here));
                proof {
                    assert(self@ =~= (AsmModel {
                        names: self@.names,
                        labels: grow_labels(st.labels, self@.names).update(id as int, Some(here)),
                        ..st
                    }));
                }
                return Ok(());
            }
            ins = Instruction::Goto(id);
        } else {
            let invert = same_text(m, "ncmp");
            ins = match ins_cmp(params, &mut self.variables, &mut self.label_names, invert) {
                Ok(i) => i,
                Err(e) => return Err(e),
            };
            self.grow_labels();
            assert(model_wf(self@)) by {
                let p = self@.prog;
                assert forall|k: int| 0 <= k < p.len() implies op_targets_below(
                    #[trigger] p[k],
                    self@.names.len(),
                ) && op_cells_below(p[k], self@.vars.len()) by {
                    assert(op_targets_below(st.prog[k], st.names.len()));
                    assert(op_cells_below(st.prog[k], st.vars.len()));
                }
                assert forall|k: int| 0 <= k < self@.labels.len() implies (
                    #[trigger] self@.labels[k] matches Some(t) ==> t < self@.prog.len()) by {
                    if k < st.labels.len() {
                        assert(self@.labels[k] == st.labels[k]);
                    }
                }
            }
        }
        let ghost mid = self@;
        self.emit_checked(ins, index);
        assert(self@ =~= emit(mid, mid.vars, ins@, index));
        Ok(())
    }

    fn decode_unchecked(&mut self, line: &str, index: usize) -> (r: Result<(), AsmErrorKind>)
        requires
            model_wf(old(self)@),
            old(self)@.vars.len() <= MEMORY_CELLS,
            old(self)@.names.len() + 4 < usize::MAX,
        ensures
            match line_spec(old(self)@, line@, index) {
                Ok(s) => r is Ok && final(self)@ == s && model_wf(s) && grows_by_one(old(self)@, s),
                Err(k) => r == Err::<(), AsmErrorKind>(k),
            },
    {
        let mut params = split_spaces(line);
        proof {
            lemma_split_nonempty(line@);
        }
        let m = params.remove(0);
        assert(tokens_view(params@) =~= split_spec(line@).drop_first());
        assert(m@ == split_spec(line@)[0]);
        let m = m.as_str();
        if m.unicode_len() == 0 {
            Ok(())
        } else if Self::is_data_mnemonic(m) {
            self.decode_data(m, &params, index)
        } else if Self::is_jump_mnemonic(m) {
            self.decode_jump(m, &params, index)
        } else if same_text(m, "ret") {
            self.emit_checked(Instruction::Ret, index);
            Ok(())
        } else if same_text(m, "end") {
            self.emit_checked(Instruction::End, index);
            Ok(())
        } else {
            Err(AsmErrorKind::UnknownInstruction)
        }
    }

    fn is_data_mnemonic(m: &str) -> (r: bool)
        ensures
            r == data_mnemonic(m@),
    {
        same_text(m, "print") || same_text(m, "printl") || same_text(m, "set") || same_text(
            m,
            "getnum",
        ) || same_text(m, "rand") || same_text(m, "abs") || same_text(m, "change") || same_text(
            m,
            "mul",
        ) || same_text(m, "div") || same_text(m, "mod") || same_text(m, "copy")
    }

    fn is_jump_mnemonic(m: &str) -> (r: bool)
        ensures
            r == jump_mnemonic(m@),
    {
        same_text(m, "label") || same_text(m, "goto") || same_text(m, "cmp") || same_text(m, "ncmp")
    }

    /// Reads one trimmed line (`index` counts from zero) into the program.
    pub fn decode_line(&mut self, line: &str, index: usize) -> (r: Result<(), AsmError>)
        requires
            model_wf(old(self)@),
            old(self)@.vars.len() <= MEMORY_CELLS,
            old(self)@.names.len() + 4 < usize::MAX,
        ensures
            match checked_line_spec(old(self)@, line@, index) {
                Ok(s) => r is Ok && final(self)@ == s && model_wf(s) && s.vars.len() <= MEMORY_CELLS
                    && grows_by_one(old(self)@, s),
                Err(k) => r == Err::<(), AsmError>(AsmError { kind: k, line: index }),
            },
    {
        match self.decode_unchecked(line, index) {
            Ok(()) => if self.variables.len() > MEMORY_CELLS {
                Err(AsmError { kind: AsmErrorKind::TooManyVariables, line: index })
            } else {
                Ok(())
            },
            Err(k) => Err(AsmError { kind: k, line: index }),
        }
    }
}

/// The instruction index that a label id stands for, once the label is declared.
pub open spec fn target_of(labels: Seq<Option<usize>>, id: usize) -> Option<usize> {
    if id < labels.len() {
        labels[id as int]
    } else {
        None
    }
}

/// An instruction with its label id replaced by the label's index, if declared.
pub open spec fn fix_op(op: Op, labels: Seq<Option<usize>>) -> Option<Op> {
    match op {
        Op::Goto(id) => match target_of(labels, id) {
            Some(t) => Some(Op::Goto(t)),
            None => None,
        },
        Op::Cmp(c, d, id, inv) => match target_of(labels, id) {
            Some(t) => Some(Op::Cmp(c, d, t, inv)),
            None => None,
        },
        _ => Some(op),
    }
}

/// The second pass: every label reference resolved, or the first line that
/// names an undeclared label.
pub open spec fn fixup_spec(prog: Seq<Op>, origins: Seq<usize>, labels: Seq<Option<usize>>) -> Result<
    Seq<Op>,
    AsmError,
>
    decreases prog.len(),
{
    if prog.len() == 0 {
        Ok(Seq::<Op>::empty())
    } else {
        match fixup_spec(prog.drop_last(), origins, labels) {
            Err(e) => Err(e),
            Ok(q) => match fix_op(prog.last(), labels) {
                Some(o) => Ok(q.push(o)),
                None => Err(AsmError { kind: AsmErrorKind::UndefinedLabel, line: origins[prog.len() - 1] }),
            },
        }
    }
}

pub open spec fn initial_model() -> AsmModel {
    AsmModel {
        prog: seq![Op::Start],
        origins: seq![0usize],
        vars: Seq::<Seq<char>>::empty(),
        names: Seq::<Seq<char>>::empty(),
        labels: Seq::<Option<usize>>::empty(),
    }
}

/// The first pass over the lines, each trimmed, stopping at the first faulty one.
pub open spec fn read_spec(lines: Seq<Seq<char>>) -> Result<AsmModel, AsmError>
    decreases lines.len(),
{
    if lines.len() == 0 {
        Ok(initial_model())
    } else {
        match read_spec(lines.drop_last()) {
            Err(e) => Err(e),
            Ok(st) => {
                let index = (lines.len() - 1) as usize;
                match checked_line_spec(st, trim_of(lines.last()), index) {
                    Ok(s) => Ok(s),
                    Err(k) => Err(AsmError { kind: k, line: index }),
                }
            },
        }
    }
}

/// The resolved program that the lines assemble to, or the first fault.
pub open spec fn assemble_spec(lines: Seq<Seq<char>>) -> Result<Seq<Op>, AsmError> {
    match read_spec(lines) {
        Err(e) => Err(e),
        Ok(st) => fixup_spec(st.prog, st.origins, st.labels),
    }
}

pub open spec fn program_view(p: Seq<Instruction>) -> Seq<Op> {
    p.map_values(|i: Instruction| i@)
}

pub open spec fn lines_view(lines: Seq<String>) -> Seq<Seq<char>> {
    lines.map_values(|l: String| l@)
}

proof fn lemma_fixup_prefix(prog: Seq<Op>, origins: Seq<usize>, labels: Seq<Option<usize>>, k: int)
    requires
        0 <= k <= prog.len(),
        fixup_spec(prog, origins, labels) is Ok,
    ensures
        fixup_spec(prog.subrange(0, k), origins, labels) is Ok,
    decreases prog.len(),
{
    if k < prog.len() {
        assert(prog.drop_last().subrange(0, k) =~= prog.subrange(0, k));
        lemma_fixup_prefix(prog.drop_last(), origins, labels, k);
    } else {
        assert(prog.subrange(0, k) =~= prog);
    }
}

proof fn lemma_fixup_err_extends(
    prog: Seq<Op>,
    origins: Seq<usize>,
    labels: Seq<Option<usize>>,
    k: int,
    e: AsmError,
)
    requires
        0 <= k <= prog.len(),
        fixup_spec(prog.subrange(0, k), origins, labels) == Err::<Seq<Op>, AsmError>(e),
    ensures
        fixup_spec(prog, origins, labels) == Err::<Seq<Op>, AsmError>(e),
    decreases prog.len(),
{
    if k < prog.len() {
        assert(prog.drop_last().subrange(0, k) =~= prog.subrange(0, k));
        lemma_fixup_err_extends(prog.drop_last(), origins, labels, k, e);
    } else {
        assert(prog.subrange(0, k) =~= prog);
    }
}

impl Assembler {
    /// Replaces every label id by the index its label was declared at.
    #[verifier::loop_isolation(false)]
    pub fn resolve_labels(self) -> (r: Result<Vec<Instruction>, AsmError>)
        requires
            model_wf(self@),
            self@.prog.len() < usize::MAX,
        ensures
            match fixup_spec(self@.prog, self@.origins, self@.labels) {
                Ok(p) => r is Ok && program_view(r->Ok_0@) == p && (self@.vars.len() <= MEMORY_CELLS
                    ==> program_ok(p)),
                Err(e) => r == Err::<Vec<Instruction>, AsmError>(e),
            },
    {
        let ghost st = self@;
        let Assembler { instructions, origins, labels, .. } = self;
        let mut instructions = instructions;
        let n = instructions.len();
        let mut k: usize = 0;
        assert(st.prog.subrange(0, 0) =~= Seq::<Op>::empty());
        while k < n
            invariant
                n == instructions.len() == st.prog.len(),
                k <= n,
                model_wf(st),
                origins@ == st.origins,
                labels@ == st.labels,
                fixup_spec(st.prog.subrange(0, k as int), st.origins, st.labels)
                    == Ok::<Seq<Op>, AsmError>(program_view(instructions@).subrange(0, k as int)),
                forall|j: int| k <= j < n ==> (#[trigger] instructions@[j])@ == st.prog[j],
                forall|j: int| 0 <= j < k ==> fix_op(st.prog[j], st.labels) == Some(
                    (#[trigger] instructions@[j])@,
                ),
            decreases n - k,
        {
            let ghost before = program_view(instructions@).subrange(0, k as int);
            assert(st.prog.subrange(0, k + 1).drop_last() =~= st.prog.subrange(0, k as int));
            let fixed: Option<Instruction> = match &instructions[k] {
                Instruction::Goto(id) => if *id < labels.len() {
                    match labels[*id] {
                        Some(t) => Some(Instruction::Goto(t)),
                        None => None,
                    }
                } else {
                    None
                },
                Instruction::Cmp(c, d, id, inv) => if *id < labels.len() {
                    match labels[*id] {
                        Some(t) => Some(Instruction::Cmp(*c, *d, t, *inv)),
                        None => None,
                    }
                } else {
                    None
                },
                _ => {
                    k = k + 1;
                    assert(program_view(instructions@).subrange(0, k as int) =~= before.push(
                        st.prog[k - 1],
                    ));
                    continue;
                },
            };
            match fixed {
                Some(ins) => {
                    instructions.set(k, ins);
                    k = k + 1;
                    assert(program_view(instructions@).subrange(0, k as int) =~= before.push(
                        ins@,
                    ));
                },
                None => {
                    proof {
                        let pre = st.prog.subrange(0, k + 1);
                        assert(pre.last() == st.prog[k as int]);
                        assert(fix_op(st.prog[k as int], st.labels) is None);
                        assert(pre.drop_last() =~= st.prog.subrange(0, k as int));
                        assert(fixup_spec(pre, st.origins, st.labels) == Err::<Seq<Op>, AsmError>(
                            AsmError { kind: AsmErrorKind::UndefinedLabel, line: st.origins[k as int] },
                        ));
                        lemma_fixup_err_extends(
                            st.prog,
                            st.origins,
                            st.labels,
                            k + 1,
                            AsmError { kind: AsmErrorKind::UndefinedLabel, line: st.origins[k as int] },
                        );
                    }
                    return Err(AsmError { kind: AsmErrorKind::UndefinedLabel, line: origins[k] });
                },
            }
        }
        assert(st.prog.subrange(0, n as int) =~= st.prog);
        assert(program_view(instructions@).subrange(0, n as int) =~= program_view(instructions@));
        proof {
            let p = program_view(instructions@);
            assert forall|j: int| 0 <= j < p.len() implies op_targets_below(#[trigger] p[j], p.len())
                && op_cells_below(p[j], st.vars.len()) by {
                assert(fix_op(st.prog[j], st.labels) == Some(instructions@[j]@));
                assert(op_cells_below(st.prog[j], st.vars.len()));
                assert(op_targets_below(st.prog[j], st.names.len()));
                match st.prog[j] {
                    Op::Goto(id) => {
                        assert(st.labels[id as int] matches Some(t) ==> t < st.prog.len());
                    },
                    Op::Cmp(_, _, id, _) => {
                        assert(st.labels[id as int] matches Some(t) ==> t < st.prog.len());
                    },
                    _ => {},
                }
            }
            if st.vars.len() <= MEMORY_CELLS {
                assert forall|j: int| 0 <= j < p.len() implies op_cells_below(
                    #[trigger] p[j],
                    MEMORY_CELLS as nat,
                ) by {
                    assert(op_cells_below(p[j], st.vars.len()));
                }
            }
        }
        Ok(instructions)
    }
}

/// A `label` line emits nothing and binds its name to the index of the last
/// instruction emitted so far; a `goto` resolved to that label lands on the
/// first instruction emitted after the declaration.
pub proof fn lemma_label_then_goto(st: AsmModel, line: Seq<char>, index: usize, m: MachineModel)
    requires
        model_wf(st),
        split_spec(line).len() >= 2,
        split_spec(line)[0] == "label"@,
        st.names.len() < usize::MAX,
        st.prog.len() < usize::MAX,
    ensures
        ({
            let id = resolve_spec(st.names, split_spec(line)[1]).1 as usize;
            let after = line_spec(st, line, index)->Ok_0;
            let here = (st.prog.len() - 1) as usize;
            &&& line_spec(st, line, index) is Ok
            &&& after.prog == st.prog
            &&& after.labels[id as int] == Some(here)
            &&& fix_op(Op::Goto(id), after.labels) == Some(Op::Goto(here))
            &&& jump(m, here).ip == st.prog.len()
        }),
{
    reveal_strlit("label");
    reveal_strlit("print");
    reveal_strlit("printl");
    reveal_strlit("set");
    reveal_strlit("getnum");
    reveal_strlit("rand");
    reveal_strlit("abs");
    reveal_strlit("change");
    reveal_strlit("mul");
    reveal_strlit("div");
    reveal_strlit("mod");
    reveal_strlit("copy");
    let m0 = split_spec(line)[0];
    assert(m0.len() == 5);
    assert(!data_mnemonic(m0)) by {
        assert(m0[0] == 'l');
        assert(m0 != "print"@ && m0 != "change"@ && m0 != "printl"@ && m0 != "getnum"@);
    }
    assert(split_spec(line).drop_first()[0] == split_spec(line)[1]);
    let names = resolve_spec(st.names, split_spec(line)[1]).0;
    let id = resolve_spec(st.names, split_spec(line)[1]).1;
    if !st.names.contains(split_spec(line)[1]) {
        assert(names.len() == st.names.len() + 1);
    } else {
        assert(st.names[st.names.index_of(split_spec(line)[1])] == split_spec(line)[1]);
    }
    assert(id < names.len());
    assert(grow_labels(st.labels, names).len() == names.len());
}

proof fn lemma_read_err_extends(lines: Seq<Seq<char>>, k: int, e: AsmError)
    requires
        0 <= k <= lines.len(),
        read_spec(lines.subrange(0, k)) == Err::<AsmModel, AsmError>(e),
    ensures
        read_spec(lines) == Err::<AsmModel, AsmError>(e),
    decreases lines.len(),
{
    if k < lines.len() {
        assert(lines.drop_last().subrange(0, k) =~= lines.subrange(0, k));
        lemma_read_err_extends(lines.drop_last(), k, e);
    } else {
        assert(lines.subrange(0, k) =~= lines);
    }
}

/// Assembles source lines into a resolved program: labels become the index of
/// the instruction before them, and the first faulty line stops assembly.
pub fn assemble(lines: &Vec<String>) -> (r: Result<Vec<Instruction>, AsmError>)
    requires
        lines.len() + 8 < usize::MAX,
    ensures
        match assemble_spec(lines_view(lines@)) {
            Ok(p) => r is Ok && program_view(r->Ok_0@) == p && program_ok(p),
            Err(e) => r == Err::<Vec<Instruction>, AsmError>(e),
        },
{
    let ghost ls = lines_view(lines@);
    let mut state = Assembler::new();
    let mut i: usize = 0;
    assert(ls.subrange(0, 0) =~= Seq::<Seq<char>>::empty());
    assert(state@.vars =~= Seq::<Seq<char>>::empty());
    assert(state@.names =~= Seq::<Seq<char>>::empty());
    assert(state@.labels =~= Seq::<Option<usize>>::empty());
    assert(state@ == initial_model());
    while i < lines.len()
        invariant
            ls == lines_view(lines@),
            lines.len() + 8 < usize::MAX,
            i <= lines.len(),
            read_spec(ls.subrange(0, i as int)) == Ok::<AsmModel, AsmError>(state@),
            model_wf(state@),
            state@.vars.len() <= MEMORY_CELLS,
            state@.prog.len() <= i + 1,
            state@.names.len() <= i,
        decreases lines.len() - i,
    {
        let line = trim_line(lines[i].as_str());
        let ghost pre = ls.subrange(0, i + 1);
        assert(pre.drop_last() =~= ls.subrange(0, i as int));
        assert(pre.last() == lines@[i as int]@);
        match state.decode_line(line, i) {
            Ok(()) => {},
            Err(e) => {
                proof {
                    lemma_read_err_extends(ls, i + 1, e);
                }
                return Err(e);
            },
        }
        i = i + 1;
    }
    assert(ls.subrange(0, lines.len() as int) =~= ls);
    state.resolve_labels()
}

} // verus!
