use vstd::prelude::*;
use vstd::string::*;
use crate::symbols::{SymbolTable, resolve_spec, get_or_set_id};
use crate::syntax::{i32_literal, literal_value, looks_like_number, parse_i32, is_number, join_spec, join_spaces};

verus! {

/// A memory cell or a literal number.
#[derive(Debug, Clone, Copy, PartialEq, Eq)]
pub enum Data {
    Address(usize),
    Num(i32),
}

#[derive(Debug, Clone, PartialEq, Eq)]
pub enum Instruction {
    Start,
    Goto(usize),
    SetValue(usize, i32),
    GetNum(usize),
    Rand(usize),
    Cmp(usize, Data, usize, bool),
    Change(usize, Data),
    Copy(usize, usize),
    Mul(usize, Data),
    Div(usize, Data),
    Mod(usize, Data),
    Abs(usize),
    Print(Option<usize>, String),
    Ret,
    End,
}

/// The mathematical model of an instruction: its text as a sequence of characters.
pub enum Op {
    Start,
    Goto(usize),
    SetValue(usize, i32),
    GetNum(usize),
    Rand(usize),
    Cmp(usize, Data, usize, bool),
    Change(usize, Data),
    Copy(usize, usize),
    Mul(usize, Data),
    Div(usize, Data),
    Mod(usize, Data),
    Abs(usize),
    Print(Option<usize>, Seq<char>),
    Ret,
    End,
}

impl View for Instruction {
    type V = Op;

    open spec fn view(&self) -> Op {
        match self {
            Instruction::Start => Op::Start,
            Instruction::Goto(t) => Op::Goto(*t),
            Instruction::SetValue(c, n) => Op::SetValue(*c, *n),
            Instruction::GetNum(c) => Op::GetNum(*c),
            Instruction::Rand(c) => Op::Rand(*c),
            Instruction::Cmp(c, d, t, inv) => Op::Cmp(*c, *d, *t, *inv),
            Instruction::Change(c, d) => Op::Change(*c, *d),
            Instruction::Copy(a, b) => Op::Copy(*a, *b),
            Instruction::Mul(c, d) => Op::Mul(*c, *d),
            Instruction::Div(c, d) => Op::Div(*c, *d),
            Instruction::Mod(c, d) => Op::Mod(*c, *d),
            Instruction::Abs(c) => Op::Abs(*c),
            Instruction::Print(c, s) => Op::Print(*c, s@),
            Instruction::Ret => Op::Ret,
            Instruction::End => Op::End,
        }
    }
}

/// Why a line of source cannot be assembled.
#[derive(Debug, Clone, Copy, PartialEq, Eq)]
pub enum AsmErrorKind {
    MissingArgument,
    InvalidInteger,
    MismatchedQuote,
    UnknownInstruction,
    UndefinedLabel,
    TooManyVariables,
}

/// What a decoder leaves: the name table and the instruction or the error.
pub type Decoded = (Seq<Seq<char>>, Result<Op, AsmErrorKind>);

pub open spec fn decoded_view(r: Result<Instruction, AsmErrorKind>) -> Result<Op, AsmErrorKind> {
    match r {
        Ok(i) => Ok(i@),
        Err(e) => Err(e),
    }
}

pub open spec fn tokens_view(v: Seq<String>) -> Seq<Seq<char>> {
    v.map_values(|t: String| t@)
}

/// An integer literal is a number, and one that does not fit in 32 bits is an
/// error; anything else names a cell.
pub open spec fn operand_spec(tab: Seq<Seq<char>>, tok: Seq<char>) -> (
    Seq<Seq<char>>,
    Result<Data, AsmErrorKind>,
) {
    match i32_literal(tok) {
        Some(n) => (tab, Ok(Data::Num(n))),
        None => if literal_value(tok) is Some {
            (tab, Err(AsmErrorKind::InvalidInteger))
        } else {
            (resolve_spec(tab, tok).0, Ok(Data::Address(resolve_spec(tab, tok).1 as usize)))
        },
    }
}

/// The ids of a cell named first and an operand named second.
pub open spec fn cell_operand_spec(tab: Seq<Seq<char>>, ps: Seq<Seq<char>>) -> (
    Seq<Seq<char>>,
    Result<(usize, Data), AsmErrorKind>,
) {
    if ps.len() < 2 {
        (tab, Err(AsmErrorKind::MissingArgument))
    } else {
        let (t1, id) = resolve_spec(tab, ps[0]);
        let (t2, d) = operand_spec(t1, ps[1]);
        (t2, match d {
            Ok(d) => Ok((id as usize, d)),
            Err(e) => Err(e),
        })
    }
}

/// A one-cell instruction: `getnum`, `rand` or `abs`.
pub open spec fn single_cell_spec(tab: Seq<Seq<char>>, ps: Seq<Seq<char>>) -> (
    Seq<Seq<char>>,
    Option<usize>,
) {
    if ps.len() < 1 {
        (tab, None)
    } else {
        (resolve_spec(tab, ps[0]).0, Some(resolve_spec(tab, ps[0]).1 as usize))
    }
}

pub open spec fn starts_with_quote(t: Seq<char>) -> bool {
    t.len() > 0 && t[0] == '"'
}

pub open spec fn ends_with_quote(t: Seq<char>) -> bool {
    t.len() > 0 && t.last() == '"'
}

/// `print` and `printl`: quoted text, or the value of a cell.
pub open spec fn print_spec(tab: Seq<Seq<char>>, ps: Seq<Seq<char>>, suffix: Seq<char>) -> Decoded {
    if ps.len() == 0 {
        (tab, Err(AsmErrorKind::MissingArgument))
    } else {
        let opens = starts_with_quote(ps[0]);
        let closes = ends_with_quote(ps.last());
        let joined = join_spec(ps);
        if opens && closes && joined.len() >= 2 {
            (tab, Ok(Op::Print(None, joined.subrange(1, joined.len() - 1) + suffix)))
        } else if opens || closes {
            (tab, Err(AsmErrorKind::MismatchedQuote))
        } else {
            let (t, id) = resolve_spec(tab, ps[0]);
            (t, Ok(Op::Print(Some(id as usize), suffix)))
        }
    }
}

/// `set`: a cell and a literal.
pub open spec fn set_spec(tab: Seq<Seq<char>>, ps: Seq<Seq<char>>) -> Decoded {
    if ps.len() < 2 {
        (tab, Err(AsmErrorKind::MissingArgument))
    } else {
        let (t, id) = resolve_spec(tab, ps[0]);
        match i32_literal(ps[1]) {
            Some(n) => (t, Ok(Op::SetValue(id as usize, n))),
            None => (t, Err(AsmErrorKind::InvalidInteger)),
        }
    }
}

/// `copy`: source cell, then destination cell.
pub open spec fn copy_spec(tab: Seq<Seq<char>>, ps: Seq<Seq<char>>) -> Decoded {
    if ps.len() < 2 {
        (tab, Err(AsmErrorKind::MissingArgument))
    } else {
        let (t1, a) = resolve_spec(tab, ps[0]);
        let (t2, b) = resolve_spec(t1, ps[1]);
        (t2, Ok(Op::Copy(a as usize, b as usize)))
    }
}

/// `cmp` and `ncmp`: a cell, an operand, and a label id to jump to.
pub open spec fn cmp_spec(
    tab: Seq<Seq<char>>,
    labels: Seq<Seq<char>>,
    ps: Seq<Seq<char>>,
    invert: bool,
) -> (Seq<Seq<char>>, Seq<Seq<char>>, Result<Op, AsmErrorKind>) {
    if ps.len() < 3 {
        (tab, labels, Err(AsmErrorKind::MissingArgument))
    } else {
        let (t1, id) = resolve_spec(tab, ps[0]);
        let (l1, label) = resolve_spec(labels, ps[2]);
        let (t2, d) = operand_spec(t1, ps[1]);
        (t2, l1, match d {
            Ok(d) => Ok(Op::Cmp(id as usize, d, label as usize, invert)),
            Err(e) => Err(e),
        })
    }
}

/// The cells an instruction reads or writes are below `n`.
pub open spec fn op_cells_below(op: Op, n: nat) -> bool {
    let data_ok = |d: Data| (d matches Data::Address(a) ==> a < n);
    match op {
        Op::SetValue(c, _) => c < n,
        Op::GetNum(c) => c < n,
        Op::Rand(c) => c < n,
        Op::Cmp(c, d, _, _) => c < n && data_ok(d),
        Op::Change(c, d) => c < n && data_ok(d),
        Op::Copy(a, b) => a < n && b < n,
        Op::Mul(c, d) => c < n && data_ok(d),
        Op::Div(c, d) => c < n && data_ok(d),
        Op::Mod(c, d) => c < n && data_ok(d),
        Op::Abs(c) => c < n,
        Op::Print(Some(c), _) => c < n,
        _ => true,
    }
}

/// The jump targets of an instruction are below `n`.
pub open spec fn op_targets_below(op: Op, n: nat) -> bool {
    match op {
        Op::Goto(t) => t < n,
        Op::Cmp(_, _, t, _) => t < n,
        _ => true,
    }
}

/// The table grew by at most two names, and every cell of the result has an id in it.
pub open spec fn decoded_in_range(
    before: Seq<Seq<char>>,
    after: Seq<Seq<char>>,
    r: Result<Instruction, AsmErrorKind>,
) -> bool {
    &&& before.len() <= after.len() <= before.len() + 2
    &&& (r matches Ok(i) ==> op_cells_below(i@, after.len()) && op_targets_below(i@, 0))
}

/// Room for the few names that one line can add.
pub open spec fn has_room(t: &SymbolTable) -> bool {
    t.wf() && t@.len() + 3 < usize::MAX
}

fn operand(tok: &String, variables: &mut SymbolTable) -> (r: Result<Data, AsmErrorKind>)
    requires
        old(variables).wf(),
        old(variables)@.len() + 1 < usize::MAX,
    ensures
        final(variables).wf(),
        (final(variables)@, r) == operand_spec(old(variables)@, tok@),
        old(variables)@.len() <= final(variables)@.len() <= old(variables)@.len() + 1,
        r matches Ok(Data::Address(a)) ==> a < final(variables)@.len(),
{
    if looks_like_number(tok.as_str()) {
        match parse_i32(tok.as_str()) {
            Some(n) => Ok(Data::Num(n)),
            None => Err(AsmErrorKind::InvalidInteger),
        }
    } else {
        proof {
            assert(i32_literal(tok@) is None);
        }
        Ok(Data::Address(get_or_set_id(tok.clone(), variables)))
    }
}

/// The text between the quotes of a literal.
fn get_text(command: &Vec<String>) -> (r: Option<String>)
    ensures
        ({
            let j = join_spec(tokens_view(command@));
            &&& r is Some <==> j.len() >= 2
            &&& r is Some ==> r->0@ == j.subrange(1, j.len() - 1)
        }),
{
    let joined = join_spaces(command);
    let n = joined.as_str().unicode_len();
    if n < 2 {
        return None;
    }
    Some(String::from_str(joined.as_str().substring_char(1, n - 1)))
}

fn first_char_is_quote(t: &String) -> (r: bool)
    ensures
        r == starts_with_quote(t@),
{
    let n = t.as_str().unicode_len();
    n > 0 && t.as_str().get_char(0) == '"'
}

fn last_char_is_quote(t: &String) -> (r: bool)
    ensures
        r == ends_with_quote(t@),
{
    let n = t.as_str().unicode_len();
    n > 0 && t.as_str().get_char(n - 1) == '"'
}

/// Decodes `print` (suffix empty) or `printl` (suffix a newline).
pub fn ins_print(params: &Vec<String>, variables: &mut SymbolTable, suffix: &str) -> (r: Result<
    Instruction,
    AsmErrorKind,
>)
    requires
        has_room(old(variables)),
    ensures
        final(variables).wf(),
        decoded_in_range(old(variables)@, final(variables)@, r),
        (final(variables)@, decoded_view(r)) == print_spec(
            old(variables)@,
            tokens_view(params@),
            suffix@,
        ),
{
    if params.len() == 0 {
        return Err(AsmErrorKind::MissingArgument);
    }
    let opens = first_char_is_quote(&params[0]);
    let closes = last_char_is_quote(&params[params.len() - 1]);
    proof {
        assert(tokens_view(params@).last() == params@.last()@);
    }
    if opens && closes {
        if let Some(text) = get_text(params) {
            let mut text = text;
            text.append(suffix);
            return Ok(Instruction::Print(None, text));
        }
    }
    if opens || closes {
        Err(AsmErrorKind::MismatchedQuote)
    } else {
        let id = get_or_set_id(params[0].clone(), variables);
        Ok(Instruction::Print(Some(id), String::from_str(suffix)))
    }
}

/// Decodes `set <cell> <literal>`.
pub fn ins_set(params: &Vec<String>, variables: &mut SymbolTable) -> (r: Result<
    Instruction,
    AsmErrorKind,
>)
    requires
        has_room(old(variables)),
    ensures
        final(variables).wf(),
        decoded_in_range(old(variables)@, final(variables)@, r),
        (final(variables)@, decoded_view(r)) == set_spec(old(variables)@, tokens_view(params@)),
{
    if params.len() < 2 {
        return Err(AsmErrorKind::MissingArgument);
    }
    let id = get_or_set_id(params[0].clone(), variables);
    match parse_i32(params[1].as_str()) {
        Some(n) => Ok(Instruction::SetValue(id, n)),
        None => Err(AsmErrorKind::InvalidInteger),
    }
}

fn single_cell(params: &Vec<String>, variables: &mut SymbolTable) -> (r: Option<usize>)
    requires
        has_room(old(variables)),
    ensures
        final(variables).wf(),
        (final(variables)@, r) == single_cell_spec(old(variables)@, tokens_view(params@)),
        old(variables)@.len() <= final(variables)@.len() <= old(variables)@.len() + 1,
        r matches Some(c) ==> c < final(variables)@.len(),
{
    if params.len() < 1 {
        return None;
    }
    Some(get_or_set_id(params[0].clone(), variables))
}

fn cell_operand(params: &Vec<String>, variables: &mut SymbolTable) -> (r: Result<(usize, Data), AsmErrorKind>)
    requires
        has_room(old(variables)),
    ensures
        final(variables).wf(),
        (final(variables)@, r) == cell_operand_spec(old(variables)@, tokens_view(params@)),
        old(variables)@.len() <= final(variables)@.len() <= old(variables)@.len() + 2,
        r matches Ok((c, d)) ==> c < final(variables)@.len() && (d matches Data::Address(a)
            ==> a < final(variables)@.len()),
{
    if params.len() < 2 {
        return Err(AsmErrorKind::MissingArgument);
    }
    let id = get_or_set_id(params[0].clone(), variables);
    let data = operand(&params[1], variables)?;
    Ok((id, data))
}

/// Decodes `getnum <cell>`.
pub fn ins_getnum(params: &Vec<String>, variables: &mut SymbolTable) -> (r: Result<
    Instruction,
    AsmErrorKind,
>)
    requires
        has_room(old(variables)),
    ensures
        final(variables).wf(),
        decoded_in_range(old(variables)@, final(variables)@, r),
        final(variables)@ == single_cell_spec(old(variables)@, tokens_view(params@)).0,
        decoded_view(r) == match single_cell_spec(old(variables)@, tokens_view(params@)).1 {
            Some(c) => Ok(Op::GetNum(c)),
            None => Err(AsmErrorKind::MissingArgument),
        },
{
    match single_cell(params, variables) {
        Some(c) => Ok(Instruction::GetNum(c)),
        None => Err(AsmErrorKind::MissingArgument),
    }
}

/// Decodes `rand <cell>`.
pub fn ins_rand(params: &Vec<String>, variables: &mut SymbolTable) -> (r: Result<
    Instruction,
    AsmErrorKind,
>)
    requires
        has_room(old(variables)),
    ensures
        final(variables).wf(),
        decoded_in_range(old(variables)@, final(variables)@, r),
        final(variables)@ == single_cell_spec(old(variables)@, tokens_view(params@)).0,
        decoded_view(r) == match single_cell_spec(old(variables)@, tokens_view(params@)).1 {
            Some(c) => Ok(Op::Rand(c)),
            None => Err(AsmErrorKind::MissingArgument),
        },
{
    match single_cell(params, variables) {
        Some(c) => Ok(Instruction::Rand(c)),
        None => Err(AsmErrorKind::MissingArgument),
    }
}

/// Decodes `abs <cell>`.
pub fn ins_abs(params: &Vec<String>, variables: &mut SymbolTable) -> (r: Result<
    Instruction,
    AsmErrorKind,
>)
    requires
        has_room(old(variables)),
    ensures
        final(variables).wf(),
        decoded_in_range(old(variables)@, final(variables)@, r),
        final(variables)@ == single_cell_spec(old(variables)@, tokens_view(params@)).0,
        decoded_view(r) == match single_cell_spec(old(variables)@, tokens_view(params@)).1 {
            Some(c) => Ok(Op::Abs(c)),
            None => Err(AsmErrorKind::MissingArgument),
        },
{
    match single_cell(params, variables) {
        Some(c) => Ok(Instruction::Abs(c)),
        None => Err(AsmErrorKind::MissingArgument),
    }
}

/// Decodes `change <cell> <operand>`: adds the operand into the cell.
pub fn ins_change(params: &Vec<String>, variables: &mut SymbolTable) -> (r: Result<
    Instruction,
    AsmErrorKind,
>)
    requires
        has_room(old(variables)),
    ensures
        final(variables).wf(),
        decoded_in_range(old(variables)@, final(variables)@, r),
        final(variables)@ == cell_operand_spec(old(variables)@, tokens_view(params@)).0,
        decoded_view(r) == match cell_operand_spec(old(variables)@, tokens_view(params@)).1 {
            Ok((c, d)) => Ok(Op::Change(c, d)),
            Err(e) => Err(e),
        },
{
    match cell_operand(params, variables) {
        Ok((c, d)) => Ok(Instruction::Change(c, d)),
        Err(e) => Err(e),
    }
}

/// Decodes `mul <cell> <operand>`.
pub fn ins_mul(params: &Vec<String>, variables: &mut SymbolTable) -> (r: Result<
    Instruction,
    AsmErrorKind,
>)
    requires
        has_room(old(variables)),
    ensures
        final(variables).wf(),
        decoded_in_range(old(variables)@, final(variables)@, r),
        final(variables)@ == cell_operand_spec(old(variables)@, tokens_view(params@)).0,
        decoded_view(r) == match cell_operand_spec(old(variables)@, tokens_view(params@)).1 {
            Ok((c, d)) => Ok(Op::Mul(c, d)),
            Err(e) => Err(e),
        },
{
    match cell_operand(params, variables) {
        Ok((c, d)) => Ok(Instruction::Mul(c, d)),
        Err(e) => Err(e),
    }
}

/// Decodes `div <cell> <operand>`.
pub fn ins_div(params: &Vec<String>, variables: &mut SymbolTable) -> (r: Result<
    Instruction,
    AsmErrorKind,
>)
    requires
        has_room(old(variables)),
    ensures
        final(variables).wf(),
        decoded_in_range(old(variables)@, final(variables)@, r),
        final(variables)@ == cell_operand_spec(old(variables)@, tokens_view(params@)).0,
        decoded_view(r) == match cell_operand_spec(old(variables)@, tokens_view(params@)).1 {
            Ok((c, d)) => Ok(Op::Div(c, d)),
            Err(e) => Err(e),
        },
{
    match cell_operand(params, variables) {
        Ok((c, d)) => Ok(Instruction::Div(c, d)),
        Err(e) => Err(e),
    }
}

/// Decodes `mod <cell> <operand>`.
pub fn ins_mod(params: &Vec<String>, variables: &mut SymbolTable) -> (r: Result<
    Instruction,
    AsmErrorKind,
>)
    requires
        has_room(old(variables)),
    ensures
        final(variables).wf(),
        decoded_in_range(old(variables)@, final(variables)@, r),
        final(variables)@ == cell_operand_spec(old(variables)@, tokens_view(params@)).0,
        decoded_view(r) == match cell_operand_spec(old(variables)@, tokens_view(params@)).1 {
            Ok((c, d)) => Ok(Op::Mod(c, d)),
            Err(e) => Err(e),
        },
{
    match cell_operand(params, variables) {
        Ok((c, d)) => Ok(Instruction::Mod(c, d)),
        Err(e) => Err(e),
    }
}

/// Decodes `copy <source> <destination>`.
pub fn ins_copy(params: &Vec<String>, variables: &mut SymbolTable) -> (r: Result<
    Instruction,
    AsmErrorKind,
>)
    requires
        has_room(old(variables)),
    ensures
        final(variables).wf(),
        decoded_in_range(old(variables)@, final(variables)@, r),
        (final(variables)@, decoded_view(r)) == copy_spec(old(variables)@, tokens_view(params@)),
{
    if params.len() < 2 {
        return Err(AsmErrorKind::MissingArgument);
    }
    let a = get_or_set_id(params[0].clone(), variables);
    let b = get_or_set_id(params[1].clone(), variables);
    Ok(Instruction::Copy(a, b))
}

/// Decodes `cmp` (`invert` false) or `ncmp` (`invert` true); the target is a label id.
pub fn ins_cmp(
    params: &Vec<String>,
    variables: &mut SymbolTable,
    label_names: &mut SymbolTable,
    invert: bool,
) -> (r: Result<Instruction, AsmErrorKind>)
    requires
        has_room(old(variables)),
        has_room(old(label_names)),
    ensures
        final(variables).wf(),
        final(label_names).wf(),
        old(variables)@.len() <= final(variables)@.len() <= old(variables)@.len() + 2,
        old(label_names)@.len() <= final(label_names)@.len() <= old(label_names)@.len() + 1,
        r matches Ok(i) ==> op_cells_below(i@, final(variables)@.len()) && op_targets_below(
            i@,
            final(label_names)@.len(),
        ),
        (final(variables)@, final(label_names)@, decoded_view(r)) == cmp_spec(
            old(variables)@,
            old(label_names)@,
            tokens_view(params@),
            invert,
        ),
{
    if params.len() < 3 {
        return Err(AsmErrorKind::MissingArgument);
    }
    let memory_id = get_or_set_id(params[0].clone(), variables);
    let label_id = get_or_set_id(params[2].clone(), label_names);
    let data = operand(&params[1], variables)?;
    Ok(Instruction::Cmp(memory_id, data, label_id, invert))
}

} // verus!
