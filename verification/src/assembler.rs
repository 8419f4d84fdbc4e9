//! The assembler: macro expansion, the combined encode-and-label pass,
//! the unresolved-label patch pass, and the `dw` literal patch pass.
//!
//! Assembly is error-tolerant: a malformed line records an error tagged
//! with (kind, offending line text, 0-based line index) and processing
//! continues; the accumulated errors and the output are both produced.

use vstd::prelude::*;
use crate::text::chars_eq;
use crate::text::chars_to_string;
use crate::text::clone_chars;
use crate::text::parse_i32_spec;
use crate::text::parse_int_chars;
use crate::text::parse_u32_spec;
use crate::text::parse_uint_chars;
use crate::text::split_lines;
use crate::text::split_lines_spec;
use crate::text::starts_with_lit;
use crate::text::starts_with_spec;
use crate::text::str_to_chars;
use crate::text::tok_is;
use crate::text::tokenize;
use crate::text::tokens_spec;
use crate::text::views_of;
use crate::word::format_instruction_spec;

verus! {

/// The assembler itself; assembly is a single function of the source text.
pub struct Asmbler;

/// The kinds of error assembly can record.
#[derive(Clone, Copy, Debug, PartialEq, Eq)]
pub enum AsmblerError {
    InvalidInstruction,
    InvalidOperand,
    SyntaxError,
    LabelAlreadyDefined,
    MACROAlreadyDefined,
    MACRONotDefined,
    MACROExpansionTooDeep,
    MemoryRequestOutOfBounds,
}

/// One slot of the output image while it is being built: an encoded
/// instruction word, or the blank placeholder a forward label reference
/// leaves until it is patched.
#[derive(Clone, Copy, Debug, PartialEq, Eq)]
pub enum Cell {
    Code { opcode: u32, operand: i32 },
    Blank,
}

/// The greatest direct memory address an operand may name.
pub const MAX_MEM_ADDR: u32 = 9999;

/// The cap on macro expansions in one assembly run; exceeding it records
/// a dedicated error instead of expanding without bound.
pub const MAX_MACRO_EXPANSIONS: usize = 1000;

/// The state of the combined encode-and-label pass.
#[verifier::ext_equal]
pub ghost struct PassState {
    pub cells: Seq<Cell>,
    pub labels: Seq<(Seq<char>, int)>,
    pub unresolved: Seq<(Seq<char>, int, u32)>,
    pub dws: Seq<(u32, i32)>,
    pub errors: Seq<(AsmblerError, Seq<char>, int)>,
}

pub open spec fn spec_err(
    st: PassState,
    kind: AsmblerError,
    line: Seq<char>,
    idx: int,
) -> PassState {
    PassState { errors: st.errors.push((kind, line, idx)), ..st }
}

pub open spec fn spec_emit(st: PassState, opcode: u32, operand: i32) -> PassState {
    PassState { cells: st.cells.push(Cell::Code { opcode, operand }), ..st }
}

/// First-match lookup in the label table.
pub open spec fn assoc_get(entries: Seq<(Seq<char>, int)>, key: Seq<char>) -> Option<int>
    decreases entries.len(),
{
    if entries.len() == 0 {
        None
    } else if entries[0].0 == key {
        Some(entries[0].1)
    } else {
        assoc_get(entries.drop_first(), key)
    }
}

/// First-match lookup in the macro table.
pub open spec fn macro_get(
    entries: Seq<(Seq<char>, Seq<Seq<char>>)>,
    key: Seq<char>,
) -> Option<Seq<Seq<char>>>
    decreases entries.len(),
{
    if entries.len() == 0 {
        None
    } else if entries[0].0 == key {
        Some(entries[0].1)
    } else {
        macro_get(entries.drop_first(), key)
    }
}

/// Insertion into the `dw` side table: a later `dw` to the same address
/// overwrites the earlier literal; distinct addresses keep their order.
pub open spec fn dws_insert(dws: Seq<(u32, i32)>, addr: u32, lit: i32) -> Seq<(u32, i32)>
    decreases dws.len(),
{
    if dws.len() == 0 {
        seq![(addr, lit)]
    } else if dws[0].0 == addr {
        seq![(addr, lit)] + dws.drop_first()
    } else {
        seq![dws[0]] + dws_insert(dws.drop_first(), addr, lit)
    }
}

/// The text inside a `[N]` operand.
pub open spec fn mem_inner(t: Seq<char>) -> Seq<char> {
    t.subrange(1, t.len() - 1)
}

/// A direct-memory operand: `[` and `]` around an unsigned integer.
pub open spec fn is_mem_addr_spec(t: Seq<char>) -> bool {
    t.len() >= 2 && t[0] == '[' && t.last() == ']' && parse_u32_spec(mem_inner(t)) is Some
}

pub open spec fn mem_addr_val(t: Seq<char>) -> u32 {
    parse_u32_spec(mem_inner(t)).unwrap()
}

/// A literal operand: anything the signed integer grammar accepts.
pub open spec fn is_lit_spec(t: Seq<char>) -> bool {
    parse_i32_spec(t) is Some
}

pub open spec fn lit_val(t: Seq<char>) -> i32 {
    parse_i32_spec(t).unwrap()
}

/// A literal the four-digit word operand field can carry. Out-of-range
/// literals are rejected at assembly time as invalid operands.
pub open spec fn lit_in_range(v: i32) -> bool {
    -9999 <= v <= 9999
}

/// `read`/`write`: one direct-memory operand.
pub open spec fn step_mem_op(
    st: PassState,
    line: Seq<char>,
    idx: int,
    toks: Seq<Seq<char>>,
    opcode: u32,
) -> PassState {
    if toks.len() != 2 {
        spec_err(st, AsmblerError::SyntaxError, line, idx)
    } else if is_mem_addr_spec(toks[1]) {
        if mem_addr_val(toks[1]) > MAX_MEM_ADDR {
            spec_err(st, AsmblerError::MemoryRequestOutOfBounds, line, idx)
        } else {
            spec_emit(st, opcode, mem_addr_val(toks[1]) as i32)
        }
    } else {
        spec_err(st, AsmblerError::InvalidOperand, line, idx)
    }
}

/// `writec`/`inc`/`dec`/`swap`/`hlt`: no operand.
pub open spec fn step_no_operand(
    st: PassState,
    line: Seq<char>,
    idx: int,
    toks: Seq<Seq<char>>,
    opcode: u32,
) -> PassState {
    if toks.len() != 1 {
        spec_err(st, AsmblerError::SyntaxError, line, idx)
    } else {
        spec_emit(st, opcode, 0)
    }
}

/// `add`/`sub`/`mul`/`div`: `acc [idx]` selects the index-indirect opcode,
/// `acc [N]` the direct one.
pub open spec fn step_arith(
    st: PassState,
    line: Seq<char>,
    idx: int,
    toks: Seq<Seq<char>>,
    op_indexed: u32,
    op_direct: u32,
) -> PassState {
    if toks.len() != 3 {
        spec_err(st, AsmblerError::SyntaxError, line, idx)
    } else if toks[1] == "acc"@ && toks[2] == "[idx]"@ {
        spec_emit(st, op_indexed, 0)
    } else if toks[1] == "acc"@ && is_mem_addr_spec(toks[2]) {
        if mem_addr_val(toks[2]) <= MAX_MEM_ADDR {
            spec_emit(st, op_direct, mem_addr_val(toks[2]) as i32)
        } else {
            spec_err(st, AsmblerError::InvalidOperand, line, idx)
        }
    } else {
        spec_err(st, AsmblerError::InvalidOperand, line, idx)
    }
}

/// `mov`: each addressing-mode pair selects its own opcode.
pub open spec fn step_mov(st: PassState, line: Seq<char>, idx: int, toks: Seq<Seq<char>>) -> PassState {
    if toks.len() != 3 {
        spec_err(st, AsmblerError::SyntaxError, line, idx)
    } else {
        let d = toks[1];
        let s = toks[2];
        if d == "acc"@ && s == "[idx]"@ {
            spec_emit(st, 23, 0)
        } else if d == "acc"@ && is_mem_addr_spec(s) {
            if mem_addr_val(s) <= MAX_MEM_ADDR {
                spec_emit(st, 20, mem_addr_val(s) as i32)
            } else {
                spec_err(st, AsmblerError::InvalidOperand, line, idx)
            }
        } else if d == "acc"@ && is_lit_spec(s) {
            if lit_in_range(lit_val(s)) {
                spec_emit(st, 21, lit_val(s))
            } else {
                spec_err(st, AsmblerError::InvalidOperand, line, idx)
            }
        } else if d == "idx"@ && is_mem_addr_spec(s) {
            if mem_addr_val(s) <= MAX_MEM_ADDR {
                spec_emit(st, 22, mem_addr_val(s) as i32)
            } else {
                spec_err(st, AsmblerError::InvalidOperand, line, idx)
            }
        } else if d == "[idx]"@ && s == "acc"@ {
            spec_emit(st, 26, 0)
        } else if is_mem_addr_spec(d) && s == "acc"@ {
            if mem_addr_val(d) <= MAX_MEM_ADDR {
                spec_emit(st, 25, mem_addr_val(d) as i32)
            } else {
                spec_err(st, AsmblerError::InvalidOperand, line, idx)
            }
        } else {
            spec_err(st, AsmblerError::InvalidOperand, line, idx)
        }
    }
}

/// A label line `name:` defines `name` at the next image index; a
/// redefinition is an error and keeps the first address.
pub open spec fn step_label(st: PassState, line: Seq<char>, idx: int, name: Seq<char>) -> PassState {
    if assoc_get(st.labels, name) is Some {
        spec_err(st, AsmblerError::LabelAlreadyDefined, line, idx)
    } else {
        PassState { labels: st.labels.push((name, st.cells.len() as int)), ..st }
    }
}

/// `jmp`/`jlz`/`jez`: an already-defined label resolves immediately; a
/// not-yet-defined one leaves a blank placeholder and is recorded for the
/// patch pass.
pub open spec fn step_branch(
    st: PassState,
    line: Seq<char>,
    idx: int,
    toks: Seq<Seq<char>>,
    opcode: u32,
) -> PassState {
    if toks.len() != 2 {
        spec_err(st, AsmblerError::SyntaxError, line, idx)
    } else {
        match assoc_get(st.labels, toks[1]) {
            Some(addr) => {
                if addr > MAX_MEM_ADDR {
                    spec_err(st, AsmblerError::MemoryRequestOutOfBounds, line, idx)
                } else {
                    spec_emit(st, opcode, addr as i32)
                }
            },
            None => PassState {
                cells: st.cells.push(Cell::Blank),
                unresolved: st.unresolved.push((toks[1], st.cells.len() as int, opcode)),
                ..st
            },
        }
    }
}

/// `dw <addr> <lit>`: records a literal placement in the side table
/// instead of emitting an image slot.
pub open spec fn step_dw(st: PassState, line: Seq<char>, idx: int, toks: Seq<Seq<char>>) -> PassState {
    if toks.len() != 3 {
        spec_err(st, AsmblerError::SyntaxError, line, idx)
    } else if !is_mem_addr_spec(toks[1]) {
        spec_err(st, AsmblerError::InvalidOperand, line, idx)
    } else if mem_addr_val(toks[1]) > MAX_MEM_ADDR {
        spec_err(st, AsmblerError::MemoryRequestOutOfBounds, line, idx)
    } else if !is_lit_spec(toks[2]) {
        spec_err(st, AsmblerError::InvalidOperand, line, idx)
    } else if !lit_in_range(lit_val(toks[2])) {
        spec_err(st, AsmblerError::InvalidOperand, line, idx)
    } else {
        PassState { dws: dws_insert(st.dws, mem_addr_val(toks[1]), lit_val(toks[2])), ..st }
    }
}

/// `assert [<lit>]`: opcode 0 with the literal, or 0, as operand.
pub open spec fn step_assert_op(
    st: PassState,
    line: Seq<char>,
    idx: int,
    toks: Seq<Seq<char>>,
) -> PassState {
    if toks.len() == 1 {
        spec_emit(st, 0, 0)
    } else if toks.len() == 2 {
        if !is_lit_spec(toks[1]) {
            spec_err(st, AsmblerError::InvalidOperand, line, idx)
        } else if !lit_in_range(lit_val(toks[1])) {
            spec_err(st, AsmblerError::InvalidOperand, line, idx)
        } else {
            spec_emit(st, 0, lit_val(toks[1]))
        }
    } else {
        spec_err(st, AsmblerError::SyntaxError, line, idx)
    }
}

/// The effect of one source line on the pass state: comments are skipped,
/// and the first token selects the validation and encoding rule.
pub open spec fn encode_step(st: PassState, line: Seq<char>, idx: int) -> PassState {
    if line.len() > 0 && line[0] == ';' {
        st
    } else {
        let toks = tokens_spec(line);
        if toks.len() == 0 {
            st
        } else {
            let m = toks[0];
            if m == "read"@ {
                step_mem_op(st, line, idx, toks, 10)
            } else if m == "write"@ {
                step_mem_op(st, line, idx, toks, 11)
            } else if m == "writec"@ {
                step_no_operand(st, line, idx, toks, 12)
            } else if m == "mov"@ {
                step_mov(st, line, idx, toks)
            } else if m == "add"@ {
                step_arith(st, line, idx, toks, 31, 30)
            } else if m == "sub"@ {
                step_arith(st, line, idx, toks, 33, 32)
            } else if m == "mul"@ {
                step_arith(st, line, idx, toks, 37, 36)
            } else if m == "div"@ {
                step_arith(st, line, idx, toks, 35, 34)
            } else if m == "inc"@ {
                step_no_operand(st, line, idx, toks, 38)
            } else if m == "dec"@ {
                step_no_operand(st, line, idx, toks, 39)
            } else if m.len() > 0 && m.last() == ':' {
                step_label(st, line, idx, m.drop_last())
            } else if m == "jmp"@ {
                step_branch(st, line, idx, toks, 40)
            } else if m == "jlz"@ {
                step_branch(st, line, idx, toks, 41)
            } else if m == "jez"@ {
                step_branch(st, line, idx, toks, 42)
            } else if m == "swap"@ {
                step_no_operand(st, line, idx, toks, 43)
            } else if m == "hlt"@ {
                step_no_operand(st, line, idx, toks, 45)
            } else if m == "dw"@ {
                step_dw(st, line, idx, toks)
            } else if m == "assert"@ {
                step_assert_op(st, line, idx, toks)
            } else {
                spec_err(st, AsmblerError::InvalidInstruction, line, idx)
            }
        }
    }
}

/// The single linear encode-and-label pass over the expanded lines.
pub open spec fn encode_pass(lines: Seq<Seq<char>>, i: int, st: PassState) -> PassState
    decreases lines.len() - i,
{
    if i < 0 || i >= lines.len() {
        st
    } else {
        encode_pass(lines, i + 1, encode_step(st, lines[i], i))
    }
}

/// The text an unresolved-label diagnostic carries.
pub open spec fn unresolved_text(name: Seq<char>) -> Seq<char> {
    "Unresolved label: "@ + name
}

/// Resolving one recorded forward reference against the complete label
/// table. The reported source line of these diagnostics is always 0.
pub open spec fn patch_one(st: PassState, entry: (Seq<char>, int, u32)) -> PassState {
    match assoc_get(st.labels, entry.0) {
        Some(addr) => {
            if addr > MAX_MEM_ADDR {
                spec_err(st, AsmblerError::MemoryRequestOutOfBounds, unresolved_text(entry.0), 0)
            } else {
                PassState {
                    cells: st.cells.update(
                        entry.1,
                        Cell::Code { opcode: entry.2, operand: addr as i32 },
                    ),
                    ..st
                }
            }
        },
        None => spec_err(st, AsmblerError::InvalidOperand, unresolved_text(entry.0), 0),
    }
}

/// The unresolved-label patch pass, in recording order.
pub open spec fn patch_pass(st: PassState, k: int) -> PassState
    decreases st.unresolved.len() - k,
{
    if k < 0 || k >= st.unresolved.len() {
        st
    } else {
        patch_pass(patch_one(st, st.unresolved[k]), k + 1)
    }
}

/// Filler words (opcode 0, operand 0) used to extend the image.
pub open spec fn filler_cells(n: int) -> Seq<Cell> {
    Seq::new(n as nat, |i: int| Cell::Code { opcode: 0, operand: 0 })
}

/// One `dw` placement: extend the image with filler up to the address if
/// needed, then overwrite the word there.
pub open spec fn dw_apply(cells: Seq<Cell>, addr: int, lit: i32) -> Seq<Cell> {
    let base = if addr >= cells.len() {
        cells + filler_cells(addr + 1 - cells.len())
    } else {
        cells
    };
    base.update(addr, Cell::Code { opcode: 0, operand: lit })
}

/// The `dw` patch pass over the whole side table.
pub open spec fn dw_pass(cells: Seq<Cell>, dws: Seq<(u32, i32)>, k: int) -> Seq<Cell>
    decreases dws.len() - k,
{
    if k < 0 || k >= dws.len() {
        cells
    } else {
        dw_pass(dw_apply(cells, dws[k].0 as int, dws[k].1), dws, k + 1)
    }
}

/// The word text of one image slot; a blank placeholder renders as an
/// empty line.
pub open spec fn cell_text(c: Cell) -> Seq<char> {
    match c {
        Cell::Code { opcode, operand } => format_instruction_spec(opcode as int, operand as int),
        Cell::Blank => Seq::empty(),
    }
}

/// The first `k` image slots joined with newlines.
pub open spec fn join_upto(cells: Seq<Cell>, k: int) -> Seq<char>
    decreases k,
{
    if k <= 0 {
        Seq::empty()
    } else if k == 1 {
        cell_text(cells[0])
    } else {
        join_upto(cells, k - 1) + seq!['\n'] + cell_text(cells[k - 1])
    }
}

/// The line sequence with the line at `i` removed.
pub open spec fn remove_line(lines: Seq<Seq<char>>, i: int) -> Seq<Seq<char>> {
    lines.subrange(0, i) + lines.subrange(i + 1, lines.len() as int)
}

/// The first line index at or after `j` that begins with `ENDMACRO`.
pub open spec fn find_end(lines: Seq<Seq<char>>, j: int) -> Option<int>
    decreases lines.len() - j,
{
    if j < 0 || j >= lines.len() {
        None
    } else if starts_with_spec(lines[j], "ENDMACRO"@) {
        Some(j)
    } else {
        find_end(lines, j + 1)
    }
}

/// What the macro-collection pass leaves behind.
#[verifier::ext_equal]
pub ghost struct MacroResult {
    pub lines: Seq<Seq<char>>,
    pub macros: Seq<(Seq<char>, Seq<Seq<char>>)>,
    pub errors: Seq<(AsmblerError, Seq<char>, int)>,
}

/// The macro-collection pass: each `STARTMACRO name` ... `ENDMACRO` block
/// is removed from the stream and its body stored under the name. A block
/// left open at end of input is a syntax error on the `STARTMACRO` line
/// and consumes the rest of the stream; a duplicate name is an error and
/// keeps the first body.
pub open spec fn collect_pass(
    lines: Seq<Seq<char>>,
    i: int,
    macros: Seq<(Seq<char>, Seq<Seq<char>>)>,
    errors: Seq<(AsmblerError, Seq<char>, int)>,
) -> MacroResult
    decreases lines.len() - i,
        via collect_pass_decreases
{
    if i < 0 || i >= lines.len() {
        MacroResult { lines, macros, errors }
    } else {
        let toks = tokens_spec(lines[i]);
        if toks.len() > 0 && toks[0] == "STARTMACRO"@ {
            if toks.len() != 2 {
                collect_pass(
                    remove_line(lines, i),
                    i,
                    macros,
                    errors.push((AsmblerError::SyntaxError, lines[i], i)),
                )
            } else {
                match find_end(lines, i + 1) {
                    Some(j) => {
                        let body = lines.subrange(i + 1, j);
                        let rest = lines.subrange(0, i) + lines.subrange(
                            j + 1,
                            lines.len() as int,
                        );
                        if macro_get(macros, toks[1]) is Some {
                            collect_pass(
                                rest,
                                i,
                                macros,
                                errors.push((AsmblerError::MACROAlreadyDefined, lines[i], i)),
                            )
                        } else {
                            collect_pass(rest, i, macros.push((toks[1], body)), errors)
                        }
                    },
                    None => {
                        let body = lines.subrange(i + 1, lines.len() as int);
                        let rest = lines.subrange(0, i);
                        let errors1 = errors.push((AsmblerError::SyntaxError, lines[i], i));
                        if macro_get(macros, toks[1]) is Some {
                            MacroResult {
                                lines: rest,
                                macros,
                                errors: errors1.push((AsmblerError::MACROAlreadyDefined, lines[i], i)),
                            }
                        } else {
                            MacroResult { lines: rest, macros: macros.push((toks[1], body)), errors: errors1 }
                        }
                    },
                }
            }
        } else {
            collect_pass(lines, i + 1, macros, errors)
        }
    }
}

/// An `ENDMACRO` line found by [`find_end`] lies at or after the search
/// start and inside the line sequence.
pub proof fn lemma_find_end_bounds(lines: Seq<Seq<char>>, j: int)
    ensures
        find_end(lines, j) matches Some(k) ==> j <= k < lines.len(),
    decreases lines.len() - j,
{
    if j < 0 || j >= lines.len() {
    } else if starts_with_spec(lines[j], "ENDMACRO"@) {
    } else {
        lemma_find_end_bounds(lines, j + 1);
    }
}

#[via_fn]
proof fn collect_pass_decreases(
    lines: Seq<Seq<char>>,
    i: int,
    macros: Seq<(Seq<char>, Seq<Seq<char>>)>,
    errors: Seq<(AsmblerError, Seq<char>, int)>,
) {
    lemma_find_end_bounds(lines, i + 1);
}

/// What the macro-expansion pass leaves behind.
#[verifier::ext_equal]
pub ghost struct ExpandResult {
    pub lines: Seq<Seq<char>>,
    pub errors: Seq<(AsmblerError, Seq<char>, int)>,
}

/// The macro-expansion pass: each `MACRO name` line is replaced in place
/// by the stored body, and scanning resumes at the first inserted line, so
/// nested invocations expand too. The expansion budget makes a runaway
/// recursive macro fail with a dedicated error instead of looping forever.
/// An undefined invocation is an error and the line is dropped.
pub open spec fn expand_pass(
    lines: Seq<Seq<char>>,
    i: int,
    macros: Seq<(Seq<char>, Seq<Seq<char>>)>,
    budget: int,
    errors: Seq<(AsmblerError, Seq<char>, int)>,
) -> ExpandResult
    decreases budget, lines.len() - i,
{
    if i < 0 || i >= lines.len() || budget < 0 {
        ExpandResult { lines, errors }
    } else {
        let toks = tokens_spec(lines[i]);
        if toks.len() > 0 && toks[0] == "MACRO"@ {
            if toks.len() != 2 {
                expand_pass(
                    remove_line(lines, i),
                    i,
                    macros,
                    budget,
                    errors.push((AsmblerError::SyntaxError, lines[i], i)),
                )
            } else {
                match macro_get(macros, toks[1]) {
                    None => expand_pass(
                        remove_line(lines, i),
                        i,
                        macros,
                        budget,
                        errors.push((AsmblerError::MACRONotDefined, lines[i], i)),
                    ),
                    Some(body) => {
                        if budget == 0 {
                            expand_pass(
                                remove_line(lines, i),
                                i,
                                macros,
                                budget,
                                errors.push((AsmblerError::MACROExpansionTooDeep, lines[i], i)),
                            )
                        } else {
                            expand_pass(
                                lines.subrange(0, i) + body + lines.subrange(
                                    i + 1,
                                    lines.len() as int,
                                ),
                                i,
                                macros,
                                budget - 1,
                                errors,
                            )
                        }
                    },
                }
            }
        } else {
            expand_pass(lines, i + 1, macros, budget, errors)
        }
    }
}

/// What assembly leaves behind: the output word text and the error list.
#[verifier::ext_equal]
pub ghost struct AsmOutcome {
    pub text: Seq<char>,
    pub errors: Seq<(AsmblerError, Seq<char>, int)>,
}

/// The entire assembly pipeline: line splitting, macro collection and
/// expansion, the encode-and-label pass, the mandatory trailing `hlt`,
/// label patching, and `dw` placement.
pub open spec fn assemble_spec(src: Seq<char>) -> AsmOutcome {
    let lines0 = split_lines_spec(src);
    let c = collect_pass(lines0, 0, Seq::empty(), Seq::empty());
    let e = expand_pass(c.lines, 0, c.macros, MAX_MACRO_EXPANSIONS as int, c.errors);
    let st0 = PassState {
        cells: Seq::empty(),
        labels: Seq::empty(),
        unresolved: Seq::empty(),
        dws: Seq::empty(),
        errors: e.errors,
    };
    let st1 = encode_pass(e.lines, 0, st0);
    let st2 = spec_emit(st1, 45, 0);
    let st3 = patch_pass(st2, 0);
    let cells = dw_pass(st3.cells, st3.dws, 0);
    AsmOutcome { text: join_upto(cells, cells.len() as int), errors: st3.errors }
}


/// The pass states of a sequence of label-table entries.
pub open spec fn labels_view(v: Seq<(Vec<char>, usize)>) -> Seq<(Seq<char>, int)> {
    Seq::new(v.len(), |i: int| (v[i].0@, v[i].1 as int))
}

pub open spec fn unres_view(v: Seq<(Vec<char>, usize, u32)>) -> Seq<(Seq<char>, int, u32)> {
    Seq::new(v.len(), |i: int| (v[i].0@, v[i].1 as int, v[i].2))
}

pub open spec fn errs_view(v: Seq<(AsmblerError, Vec<char>, usize)>) -> Seq<
    (AsmblerError, Seq<char>, int),
> {
    Seq::new(v.len(), |i: int| (v[i].0, v[i].1@, v[i].2 as int))
}

pub open spec fn macros_view(v: Seq<(Vec<char>, Vec<Vec<char>>)>) -> Seq<
    (Seq<char>, Seq<Seq<char>>),
> {
    Seq::new(v.len(), |i: int| (v[i].0@, views_of(v[i].1@)))
}

pub open spec fn cell_wf(c: Cell) -> bool {
    match c {
        Cell::Code { opcode, operand } => opcode < 100 && -9999 <= operand <= 9999,
        Cell::Blank => true,
    }
}

/// Well-formedness the passes maintain: every emitted cell fits the word
/// format, every recorded forward reference points into the image with a
/// valid branch opcode, and every side-table entry is range-checked.
pub open spec fn wf(st: PassState) -> bool {
    &&& forall|k: int| 0 <= k < st.cells.len() ==> cell_wf(#[trigger] st.cells[k])
    &&& forall|k: int|
        0 <= k < st.unresolved.len() ==> 0 <= (#[trigger] st.unresolved[k]).1 < st.cells.len()
            && st.unresolved[k].2 < 100
    &&& forall|k: int|
        0 <= k < st.dws.len() ==> (#[trigger] st.dws[k]).0 <= MAX_MEM_ADDR && -9999
            <= st.dws[k].1 <= 9999
}

/// Inserting a range-checked entry keeps every side-table entry
/// range-checked.
proof fn lemma_dws_insert_wf(dws: Seq<(u32, i32)>, addr: u32, lit: i32)
    requires
        forall|k: int|
            0 <= k < dws.len() ==> (#[trigger] dws[k]).0 <= MAX_MEM_ADDR && -9999 <= dws[k].1
                <= 9999,
        addr <= MAX_MEM_ADDR,
        -9999 <= lit <= 9999,
    ensures
        forall|k: int|
            0 <= k < dws_insert(dws, addr, lit).len() ==> (#[trigger] dws_insert(
                dws,
                addr,
                lit,
            )[k]).0 <= MAX_MEM_ADDR && -9999 <= dws_insert(dws, addr, lit)[k].1 <= 9999,
    decreases dws.len(),
{
    let r = dws_insert(dws, addr, lit);
    if dws.len() == 0 {
        assert(r[0] == (addr, lit));
    } else if dws[0].0 == addr {
        assert forall|k: int| 0 <= k < r.len() implies (#[trigger] r[k]).0 <= MAX_MEM_ADDR && -9999
            <= r[k].1 <= 9999 by {
            if k == 0 {
                assert(r[k] == (addr, lit));
            } else {
                assert(r[k] == dws.drop_first()[k - 1]);
                assert(dws.drop_first()[k - 1] == dws[k]);
            }
        }
    } else {
        assert(forall|k: int|
            0 <= k < dws.drop_first().len() ==> (#[trigger] dws.drop_first()[k]).0 <= MAX_MEM_ADDR
                && -9999 <= dws.drop_first()[k].1 <= 9999);
        lemma_dws_insert_wf(dws.drop_first(), addr, lit);
        let rr = dws_insert(dws.drop_first(), addr, lit);
        assert forall|k: int| 0 <= k < r.len() implies (#[trigger] r[k]).0 <= MAX_MEM_ADDR && -9999
            <= r[k].1 <= 9999 by {
            if k == 0 {
                assert(r[k] == dws[0]);
            } else {
                assert(r[k] == rr[k - 1]);
            }
        }
    }
}

/// The mutable state of one assembly run.
struct Assembly {
    cells: Vec<Cell>,
    labels: Vec<(Vec<char>, usize)>,
    unresolved: Vec<(Vec<char>, usize, u32)>,
    dws: Vec<(u32, i32)>,
    errors: Vec<(AsmblerError, Vec<char>, usize)>,
}

impl View for Assembly {
    type V = PassState;

    closed spec fn view(&self) -> PassState {
        PassState {
            cells: self.cells@,
            labels: labels_view(self.labels@),
            unresolved: unres_view(self.unresolved@),
            dws: self.dws@,
            errors: errs_view(self.errors@),
        }
    }
}

/// First-match label lookup, mirroring [`assoc_get`].
#[verifier::loop_isolation(false)]
fn label_lookup(labels: &Vec<(Vec<char>, usize)>, key: &Vec<char>) -> (r: Option<usize>)
    ensures
        match r {
            Some(a) => assoc_get(labels_view(labels@), key@) == Some(a as int),
            None => assoc_get(labels_view(labels@), key@) is None,
        },
{
    let n = labels.len();
    let mut i: usize = 0;
    proof {
        assert(labels_view(labels@).subrange(0, n as int) =~= labels_view(labels@));
    }
    while i < n
        invariant
            0 <= i <= n,
            n == labels@.len(),
            assoc_get(labels_view(labels@), key@) == assoc_get(
                labels_view(labels@).subrange(i as int, n as int),
                key@,
            ),
        decreases n - i,
    {
        let ghost rest = labels_view(labels@).subrange(i as int, n as int);
        proof {
            assert(rest[0] == labels_view(labels@)[i as int]);
            assert(rest.drop_first() =~= labels_view(labels@).subrange(i as int + 1, n as int));
        }
        if chars_eq(&labels[i].0, key) {
            return Some(labels[i].1);
        }
        i = i + 1;
    }
    proof {
        assert(labels_view(labels@).subrange(i as int, n as int) =~= Seq::<(Seq<char>, int)>::empty());
    }
    None
}

/// First-match macro lookup, mirroring [`macro_get`]; yields the index.
#[verifier::loop_isolation(false)]
fn macro_find(macros: &Vec<(Vec<char>, Vec<Vec<char>>)>, key: &Vec<char>) -> (r: Option<usize>)
    ensures
        match r {
            Some(i) => i < macros@.len() && macro_get(macros_view(macros@), key@) == Some(
                views_of(macros@[i as int].1@),
            ),
            None => macro_get(macros_view(macros@), key@) is None,
        },
{
    let n = macros.len();
    let mut i: usize = 0;
    proof {
        assert(macros_view(macros@).subrange(0, n as int) =~= macros_view(macros@));
    }
    while i < n
        invariant
            0 <= i <= n,
            n == macros@.len(),
            macro_get(macros_view(macros@), key@) == macro_get(
                macros_view(macros@).subrange(i as int, n as int),
                key@,
            ),
        decreases n - i,
    {
        let ghost rest = macros_view(macros@).subrange(i as int, n as int);
        proof {
            assert(rest[0] == macros_view(macros@)[i as int]);
            assert(rest.drop_first() =~= macros_view(macros@).subrange(i as int + 1, n as int));
        }
        if chars_eq(&macros[i].0, key) {
            return Some(i);
        }
        i = i + 1;
    }
    proof {
        assert(macros_view(macros@).subrange(i as int, n as int) =~= Seq::<
            (Seq<char>, Seq<Seq<char>>),
        >::empty());
    }
    None
}

/// Overwriting insertion into the `dw` side table, mirroring
/// [`dws_insert`].
#[verifier::loop_isolation(false)]
fn dws_insert_exec(dws: &mut Vec<(u32, i32)>, addr: u32, lit: i32)
    ensures
        final(dws)@ == dws_insert(old(dws)@, addr, lit),
{
    let n = dws.len();
    let mut i: usize = 0;
    proof {
        assert(dws@.subrange(0, n as int) =~= dws@);
        assert(dws@.subrange(0, 0) =~= Seq::<(u32, i32)>::empty());
        assert(Seq::<(u32, i32)>::empty() + dws_insert(dws@, addr, lit) =~= dws_insert(
            dws@,
            addr,
            lit,
        ));
    }
    while i < n
        invariant
            0 <= i <= n,
            n == dws@.len(),
            dws@ == old(dws)@,
            forall|k: int| 0 <= k < i ==> (#[trigger] dws@[k]).0 != addr,
            dws_insert(dws@, addr, lit) == dws@.subrange(0, i as int) + dws_insert(
                dws@.subrange(i as int, n as int),
                addr,
                lit,
            ),
        decreases n - i,
    {
        let ghost rest = dws@.subrange(i as int, n as int);
        proof {
            assert(rest[0] == dws@[i as int]);
            assert(rest.drop_first() =~= dws@.subrange(i as int + 1, n as int));
        }
        if dws[i].0 == addr {
            let ghost pre = dws@;
            dws.set(i, (addr, lit));
            proof {
                assert(dws_insert(pre, addr, lit) =~= pre.subrange(0, i as int) + (seq![
                    (addr, lit),
                ] + pre.subrange(i as int + 1, n as int)));
                assert(dws@ =~= pre.subrange(0, i as int) + (seq![(addr, lit)] + pre.subrange(
                    i as int + 1,
                    n as int,
                )));
            }
            return;
        }
        proof {
            assert(dws@.subrange(0, i as int).push(dws@[i as int]) =~= dws@.subrange(
                0,
                i as int + 1,
            ));
            assert(dws@.subrange(0, i as int) + (seq![dws@[i as int]] + dws_insert(
                rest.drop_first(),
                addr,
                lit,
            )) =~= dws@.subrange(0, i as int + 1) + dws_insert(rest.drop_first(), addr, lit));
        }
        i = i + 1;
    }
    let ghost pre = dws@;
    dws.push((addr, lit));
    proof {
        assert(pre.subrange(i as int, n as int) =~= Seq::<(u32, i32)>::empty());
        assert(pre.subrange(0, i as int) =~= pre);
        assert(dws@ =~= pre + seq![(addr, lit)]);
        assert(dws_insert(pre, addr, lit) =~= dws@);
    }
}

/// Extracts and parses the `[N]` operand form.
#[verifier::loop_isolation(false)]
fn mem_addr_parse(t: &Vec<char>) -> (r: Option<u32>)
    ensures
        is_mem_addr_spec(t@) ==> r == Some(mem_addr_val(t@)),
        !is_mem_addr_spec(t@) ==> r is None,
{
    let n = t.len();
    if n < 2 {
        return None;
    }
    if t[0] != '[' || t[n - 1] != ']' {
        return None;
    }
    let mut inner: Vec<char> = Vec::new();
    let mut k: usize = 1;
    while k < n - 1
        invariant
            1 <= k <= n - 1,
            n == t@.len(),
            inner@ =~= t@.subrange(1, k as int),
        decreases n - k,
    {
        inner.push(t[k]);
        proof {
            assert(inner@ =~= t@.subrange(1, k as int + 1));
        }
        k = k + 1;
    }
    proof {
        assert(inner@ == mem_inner(t@));
    }
    parse_uint_chars(&inner)
}

/// The diagnostic text naming an unresolved label.
#[verifier::loop_isolation(false)]
fn unresolved_label_text(name: &Vec<char>) -> (r: Vec<char>)
    ensures
        r@ == unresolved_text(name@),
{
    let mut r = str_to_chars("Unresolved label: ");
    let ghost prefix = r@;
    let n = name.len();
    let mut k: usize = 0;
    proof {
        assert(prefix + name@.subrange(0, 0) =~= prefix);
        assert(r@ =~= prefix + name@.subrange(0, 0));
    }
    while k < n
        invariant
            0 <= k <= n,
            n == name@.len(),
            r@ =~= prefix + name@.subrange(0, k as int),
        decreases n - k,
    {
        r.push(name[k]);
        proof {
            assert(r@ =~= prefix + name@.subrange(0, k as int + 1));
        }
        k = k + 1;
    }
    proof {
        assert(name@.subrange(0, n as int) =~= name@);
    }
    r
}


impl Assembly {
    /// Records an error with the offending line text and source index.
    fn err(&mut self, kind: AsmblerError, line: &Vec<char>, idx: usize)
        ensures
            final(self)@ == spec_err(old(self)@, kind, line@, idx as int),
            wf(old(self)@) ==> wf(final(self)@),
    {
        let text = clone_chars(line);
        self.errors.push((kind, text, idx));
        proof {
            assert(errs_view(self.errors@) =~= errs_view(old(self).errors@).push(
                (kind, line@, idx as int),
            ));
            assert(self@ =~= spec_err(old(self)@, kind, line@, idx as int));
        }
    }

    /// Appends one encoded word to the image.
    fn emit(&mut self, opcode: u32, operand: i32)
        requires
            opcode < 100,
            -9999 <= operand <= 9999,
        ensures
            final(self)@ == spec_emit(old(self)@, opcode, operand),
            wf(old(self)@) ==> wf(final(self)@),
    {
        self.cells.push(Cell::Code { opcode, operand });
        proof {
            assert(self@ =~= spec_emit(old(self)@, opcode, operand));
        }
    }

    fn do_mem_op(&mut self, line: &Vec<char>, idx: usize, toks: &Vec<Vec<char>>, opcode: u32)
        requires
            toks@.len() == 2,
            opcode < 100,
        ensures
            final(self)@ == step_mem_op(old(self)@, line@, idx as int, views_of(toks@), opcode),
            wf(old(self)@) ==> wf(final(self)@),
    {
        proof {
            assert(views_of(toks@)[1] == toks@[1]@);
        }
        match mem_addr_parse(&toks[1]) {
            Some(addr) => {
                if addr > MAX_MEM_ADDR {
                    self.err(AsmblerError::MemoryRequestOutOfBounds, line, idx);
                } else {
                    self.emit(opcode, addr as i32);
                }
            },
            None => {
                self.err(AsmblerError::InvalidOperand, line, idx);
            },
        }
    }

    #[verifier::rlimit(60)]
    fn do_mov(&mut self, line: &Vec<char>, idx: usize, toks: &Vec<Vec<char>>)
        requires
            toks@.len() == 3,
        ensures
            final(self)@ == step_mov(old(self)@, line@, idx as int, views_of(toks@)),
            wf(old(self)@) ==> wf(final(self)@),
    {
        proof {
            assert(views_of(toks@)[1] == toks@[1]@);
            assert(views_of(toks@)[2] == toks@[2]@);
            reveal_strlit("acc");
            reveal_strlit("idx");
            reveal_strlit("[idx]");
        }
        let d_acc = tok_is(&toks[1], "acc");
        let d_idx = tok_is(&toks[1], "idx");
        let d_ind = tok_is(&toks[1], "[idx]");
        let s_acc = tok_is(&toks[2], "acc");
        let s_ind = tok_is(&toks[2], "[idx]");
        if d_acc && s_ind {
            self.emit(23, 0);
        } else if d_acc {
            match mem_addr_parse(&toks[2]) {
                Some(addr) => {
                    if addr <= MAX_MEM_ADDR {
                        self.emit(20, addr as i32);
                    } else {
                        self.err(AsmblerError::InvalidOperand, line, idx);
                    }
                },
                None => {
                    match parse_int_chars(&toks[2]) {
                        Some(lit) => {
                            if -9999 <= lit && lit <= 9999 {
                                self.emit(21, lit);
                            } else {
                                self.err(AsmblerError::InvalidOperand, line, idx);
                            }
                        },
                        None => {
                            self.err(AsmblerError::InvalidOperand, line, idx);
                        },
                    }
                },
            }
        } else if d_idx {
            match mem_addr_parse(&toks[2]) {
                Some(addr) => {
                    if addr <= MAX_MEM_ADDR {
                        self.emit(22, addr as i32);
                    } else {
                        self.err(AsmblerError::InvalidOperand, line, idx);
                    }
                },
                None => {
                    self.err(AsmblerError::InvalidOperand, line, idx);
                },
            }
        } else if d_ind && s_acc {
            self.emit(26, 0);
        } else if s_acc {
            match mem_addr_parse(&toks[1]) {
                Some(addr) => {
                    if addr <= MAX_MEM_ADDR {
                        self.emit(25, addr as i32);
                    } else {
                        self.err(AsmblerError::InvalidOperand, line, idx);
                    }
                },
                None => {
                    self.err(AsmblerError::InvalidOperand, line, idx);
                },
            }
        } else {
            self.err(AsmblerError::InvalidOperand, line, idx);
        }
    }

    fn do_arith(
        &mut self,
        line: &Vec<char>,
        idx: usize,
        toks: &Vec<Vec<char>>,
        op_indexed: u32,
        op_direct: u32,
    )
        requires
            toks@.len() == 3,
            op_indexed < 100,
            op_direct < 100,
        ensures
            final(self)@ == step_arith(
                old(self)@,
                line@,
                idx as int,
                views_of(toks@),
                op_indexed,
                op_direct,
            ),
            wf(old(self)@) ==> wf(final(self)@),
    {
        proof {
            assert(views_of(toks@)[1] == toks@[1]@);
            assert(views_of(toks@)[2] == toks@[2]@);
            reveal_strlit("acc");
            reveal_strlit("idx");
            reveal_strlit("[idx]");
        }
        let d_acc = tok_is(&toks[1], "acc");
        let s_ind = tok_is(&toks[2], "[idx]");
        if d_acc && s_ind {
            self.emit(op_indexed, 0);
        } else if d_acc {
            match mem_addr_parse(&toks[2]) {
                Some(addr) => {
                    if addr <= MAX_MEM_ADDR {
                        self.emit(op_direct, addr as i32);
                    } else {
                        self.err(AsmblerError::InvalidOperand, line, idx);
                    }
                },
                None => {
                    self.err(AsmblerError::InvalidOperand, line, idx);
                },
            }
        } else {
            self.err(AsmblerError::InvalidOperand, line, idx);
        }
    }

    fn do_label(&mut self, line: &Vec<char>, idx: usize, name: &Vec<char>)
        ensures
            final(self)@ == step_label(old(self)@, line@, idx as int, name@),
            wf(old(self)@) ==> wf(final(self)@),
    {
        match label_lookup(&self.labels, name) {
            Some(_) => {
                self.err(AsmblerError::LabelAlreadyDefined, line, idx);
            },
            None => {
                let nm = clone_chars(name);
                let pos = self.cells.len();
                self.labels.push((nm, pos));
                proof {
                    assert(labels_view(self.labels@) =~= labels_view(old(self).labels@).push(
                        (name@, old(self)@.cells.len() as int),
                    ));
                    assert(self@ =~= step_label(old(self)@, line@, idx as int, name@));
                }
            },
        }
    }

    fn do_branch(&mut self, line: &Vec<char>, idx: usize, toks: &Vec<Vec<char>>, opcode: u32)
        requires
            toks@.len() == 2,
            opcode < 100,
        ensures
            final(self)@ == step_branch(old(self)@, line@, idx as int, views_of(toks@), opcode),
            wf(old(self)@) ==> wf(final(self)@),
    {
        proof {
            assert(views_of(toks@)[1] == toks@[1]@);
        }
        match label_lookup(&self.labels, &toks[1]) {
            Some(addr) => {
                if addr > MAX_MEM_ADDR as usize {
                    self.err(AsmblerError::MemoryRequestOutOfBounds, line, idx);
                } else {
                    self.emit(opcode, addr as i32);
                }
            },
            None => {
                let nm = clone_chars(&toks[1]);
                let pos = self.cells.len();
                self.cells.push(Cell::Blank);
                self.unresolved.push((nm, pos, opcode));
                proof {
                    assert(unres_view(self.unresolved@) =~= unres_view(
                        old(self).unresolved@,
                    ).push((toks@[1]@, old(self)@.cells.len() as int, opcode)));
                    assert(self@ =~= step_branch(
                        old(self)@,
                        line@,
                        idx as int,
                        views_of(toks@),
                        opcode,
                    ));
                }
            },
        }
    }

    fn do_dw(&mut self, line: &Vec<char>, idx: usize, toks: &Vec<Vec<char>>)
        requires
            toks@.len() == 3,
        ensures
            final(self)@ == step_dw(old(self)@, line@, idx as int, views_of(toks@)),
            wf(old(self)@) ==> wf(final(self)@),
    {
        proof {
            assert(views_of(toks@)[1] == toks@[1]@);
            assert(views_of(toks@)[2] == toks@[2]@);
        }
        match mem_addr_parse(&toks[1]) {
            None => {
                self.err(AsmblerError::InvalidOperand, line, idx);
            },
            Some(addr) => {
                if addr > MAX_MEM_ADDR {
                    self.err(AsmblerError::MemoryRequestOutOfBounds, line, idx);
                } else {
                    match parse_int_chars(&toks[2]) {
                        None => {
                            self.err(AsmblerError::InvalidOperand, line, idx);
                        },
                        Some(lit) => {
                            if -9999 <= lit && lit <= 9999 {
                                proof {
                                    if wf(self@) {
                                        lemma_dws_insert_wf(self@.dws, addr, lit);
                                    }
                                }
                                dws_insert_exec(&mut self.dws, addr, lit);
                                proof {
                                    assert(self@ =~= step_dw(
                                        old(self)@,
                                        line@,
                                        idx as int,
                                        views_of(toks@),
                                    ));
                                }
                            } else {
                                self.err(AsmblerError::InvalidOperand, line, idx);
                            }
                        },
                    }
                }
            },
        }
    }

    fn do_assert_op(&mut self, line: &Vec<char>, idx: usize, toks: &Vec<Vec<char>>)
        requires
            toks@.len() == 2,
        ensures
            final(self)@ == step_assert_op(old(self)@, line@, idx as int, views_of(toks@)),
            wf(old(self)@) ==> wf(final(self)@),
    {
        proof {
            assert(views_of(toks@)[1] == toks@[1]@);
        }
        match parse_int_chars(&toks[1]) {
            None => {
                self.err(AsmblerError::InvalidOperand, line, idx);
            },
            Some(lit) => {
                if -9999 <= lit && lit <= 9999 {
                    self.emit(0, lit);
                } else {
                    self.err(AsmblerError::InvalidOperand, line, idx);
                }
            },
        }
    }

    /// Validates and encodes one source line, as [`encode_step`] says.
    fn encode_line(&mut self, line: &Vec<char>, idx: usize)
        ensures
            final(self)@ == encode_step(old(self)@, line@, idx as int),
            wf(old(self)@) ==> wf(final(self)@),
    {
        if line.len() > 0 && line[0] == ';' {
            return;
        }
        let toks = tokenize(line);
        if toks.len() == 0 {
            return;
        }
        proof {
            assert(views_of(toks@)[0] == toks@[0]@);
        }
        let n = toks.len();
        if tok_is(&toks[0], "read") {
            if n != 2 {
                self.err(AsmblerError::SyntaxError, line, idx);
            } else {
                self.do_mem_op(line, idx, &toks, 10);
            }
        } else if tok_is(&toks[0], "write") {
            if n != 2 {
                self.err(AsmblerError::SyntaxError, line, idx);
            } else {
                self.do_mem_op(line, idx, &toks, 11);
            }
        } else if tok_is(&toks[0], "writec") {
            if n != 1 {
                self.err(AsmblerError::SyntaxError, line, idx);
            } else {
                self.emit(12, 0);
            }
        } else if tok_is(&toks[0], "mov") {
            if n != 3 {
                self.err(AsmblerError::SyntaxError, line, idx);
            } else {
                self.do_mov(line, idx, &toks);
            }
        } else if tok_is(&toks[0], "add") {
            if n != 3 {
                self.err(AsmblerError::SyntaxError, line, idx);
            } else {
                self.do_arith(line, idx, &toks, 31, 30);
            }
        } else if tok_is(&toks[0], "sub") {
            if n != 3 {
                self.err(AsmblerError::SyntaxError, line, idx);
            } else {
                self.do_arith(line, idx, &toks, 33, 32);
            }
        } else if tok_is(&toks[0], "mul") {
            if n != 3 {
                self.err(AsmblerError::SyntaxError, line, idx);
            } else {
                self.do_arith(line, idx, &toks, 37, 36);
            }
        } else if tok_is(&toks[0], "div") {
            if n != 3 {
                self.err(AsmblerError::SyntaxError, line, idx);
            } else {
                self.do_arith(line, idx, &toks, 35, 34);
            }
        } else if tok_is(&toks[0], "inc") {
            if n != 1 {
                self.err(AsmblerError::SyntaxError, line, idx);
            } else {
                self.emit(38, 0);
            }
        } else if tok_is(&toks[0], "dec") {
            if n != 1 {
                self.err(AsmblerError::SyntaxError, line, idx);
            } else {
                self.emit(39, 0);
            }
        } else if toks[0].len() > 0 && toks[0][toks[0].len() - 1] == ':' {
            let mut name = clone_chars(&toks[0]);
            name.pop();
            proof {
                assert(name@ =~= toks@[0]@.drop_last());
            }
            self.do_label(line, idx, &name);
        } else if tok_is(&toks[0], "jmp") {
            if n != 2 {
                self.err(AsmblerError::SyntaxError, line, idx);
            } else {
                self.do_branch(line, idx, &toks, 40);
            }
        } else if tok_is(&toks[0], "jlz") {
            if n != 2 {
                self.err(AsmblerError::SyntaxError, line, idx);
            } else {
                self.do_branch(line, idx, &toks, 41);
            }
        } else if tok_is(&toks[0], "jez") {
            if n != 2 {
                self.err(AsmblerError::SyntaxError, line, idx);
            } else {
                self.do_branch(line, idx, &toks, 42);
            }
        } else if tok_is(&toks[0], "swap") {
            if n != 1 {
                self.err(AsmblerError::SyntaxError, line, idx);
            } else {
                self.emit(43, 0);
            }
        } else if tok_is(&toks[0], "hlt") {
            if n != 1 {
                self.err(AsmblerError::SyntaxError, line, idx);
            } else {
                self.emit(45, 0);
            }
        } else if tok_is(&toks[0], "dw") {
            if n != 3 {
                self.err(AsmblerError::SyntaxError, line, idx);
            } else {
                self.do_dw(line, idx, &toks);
            }
        } else if tok_is(&toks[0], "assert") {
            if n == 1 {
                self.emit(0, 0);
            } else if n == 2 {
                self.do_assert_op(line, idx, &toks);
            } else {
                self.err(AsmblerError::SyntaxError, line, idx);
            }
        } else {
            self.err(AsmblerError::InvalidInstruction, line, idx);
        }
    }
}


/// Skipping lines that do not begin with `ENDMACRO` does not change what
/// [`find_end`] finds.
proof fn lemma_find_end_skip(lines: Seq<Seq<char>>, start: int, j: int)
    requires
        0 <= start <= j <= lines.len(),
        forall|k: int| start <= k < j ==> !starts_with_spec(#[trigger] lines[k], "ENDMACRO"@),
    ensures
        find_end(lines, start) == find_end(lines, j),
    decreases j - start,
{
    if start < j {
        lemma_find_end_skip(lines, start + 1, j);
    }
}

/// The macro-collection pass over the cleaned source lines.
#[verifier::loop_isolation(false)]
#[verifier::rlimit(60)]
fn collect_macros(
    lines: &mut Vec<Vec<char>>,
    errors: &mut Vec<(AsmblerError, Vec<char>, usize)>,
) -> (macros: Vec<(Vec<char>, Vec<Vec<char>>)>)
    ensures
        ({
            let r = collect_pass(
                views_of(old(lines)@),
                0,
                Seq::empty(),
                errs_view(old(errors)@),
            );
            views_of(final(lines)@) == r.lines && macros_view(macros@) == r.macros && errs_view(
                final(errors)@,
            ) == r.errors
        }),
{
    let ghost lines0 = views_of(lines@);
    let ghost errs0 = errs_view(errors@);
    let mut macros: Vec<(Vec<char>, Vec<Vec<char>>)> = Vec::new();
    let mut i: usize = 0;
    proof {
        assert(macros_view(macros@) =~= Seq::<(Seq<char>, Seq<Seq<char>>)>::empty());
    }
    while i < lines.len()
        invariant
            collect_pass(lines0, 0, Seq::empty(), errs0) == collect_pass(
                views_of(lines@),
                i as int,
                macros_view(macros@),
                errs_view(errors@),
            ),
        decreases lines@.len() - i,
    {
        let ghost lv = views_of(lines@);
        proof {
            assert(lv[i as int] == lines@[i as int]@);
        }
        let toks = tokenize(&lines[i]);
        proof {
            if toks@.len() > 0 {
                assert(views_of(toks@)[0] == toks@[0]@);
            }
            if toks@.len() > 1 {
                assert(views_of(toks@)[1] == toks@[1]@);
            }
        }
        let is_sm = toks.len() > 0 && tok_is(&toks[0], "STARTMACRO");
        if is_sm {
            let start_line = clone_chars(&lines[i]);
            if toks.len() != 2 {
                let ghost ev = errs_view(errors@);
                errors.push((AsmblerError::SyntaxError, start_line, i));
                lines.remove(i);
                proof {
                    assert(errs_view(errors@) =~= ev.push(
                        (AsmblerError::SyntaxError, lv[i as int], i as int),
                    ));
                    assert(views_of(lines@) =~= remove_line(lv, i as int));
                }
            } else {
                let mut j: usize = i + 1;
                while j < lines.len() && !starts_with_lit(&lines[j], "ENDMACRO")
                    invariant
                        i + 1 <= j <= lines@.len(),
                        forall|k: int|
                            i + 1 <= k < j ==> !starts_with_spec(#[trigger] lv[k], "ENDMACRO"@),
                    decreases lines@.len() - j,
                {
                    j = j + 1;
                }
                proof {
                    lemma_find_end_skip(lv, i as int + 1, j as int);
                }
                let name = clone_chars(&toks[1]);
                if j < lines.len() {
                    proof {
                        assert(find_end(lv, i as int + 1) == Some(j as int));
                    }
                    let mut body: Vec<Vec<char>> = Vec::new();
                    let mut k: usize = i + 1;
                    proof {
                        assert(views_of(body@) =~= lv.subrange(i as int + 1, i as int + 1));
                    }
                    while k < j
                        invariant
                            i + 1 <= k <= j,
                            views_of(body@) =~= lv.subrange(i as int + 1, k as int),
                        decreases j - k,
                    {
                        let ghost bv = views_of(body@);
                        body.push(clone_chars(&lines[k]));
                        proof {
                            assert(views_of(body@) =~= bv.push(lv[k as int]));
                            assert(views_of(body@) =~= lv.subrange(i as int + 1, k as int + 1));
                        }
                        k = k + 1;
                    }
                    let count = j + 1 - i;
                    let mut t: usize = 0;
                    proof {
                        assert(views_of(lines@) =~= lv.subrange(0, i as int) + lv.subrange(
                            i as int,
                            lv.len() as int,
                        ));
                    }
                    while t < count
                        invariant
                            0 <= t <= count,
                            count == j + 1 - i,
                            lines@.len() == lv.len() - t,
                            views_of(lines@) =~= lv.subrange(0, i as int) + lv.subrange(
                                i as int + t as int,
                                lv.len() as int,
                            ),
                        decreases count - t,
                    {
                        let ghost cur = views_of(lines@);
                        lines.remove(i);
                        proof {
                            assert(views_of(lines@) =~= cur.remove(i as int));
                            assert(views_of(lines@) =~= lv.subrange(0, i as int) + lv.subrange(
                                i as int + t as int + 1,
                                lv.len() as int,
                            ));
                        }
                        t = t + 1;
                    }
                    match macro_find(&macros, &name) {
                        Some(_) => {
                            let ghost ev = errs_view(errors@);
                            errors.push((AsmblerError::MACROAlreadyDefined, start_line, i));
                            proof {
                                assert(errs_view(errors@) =~= ev.push(
                                    (AsmblerError::MACROAlreadyDefined, lv[i as int], i as int),
                                ));
                            }
                        },
                        None => {
                            let ghost mv = macros_view(macros@);
                            let ghost bv = views_of(body@);
                            macros.push((name, body));
                            proof {
                                assert(macros_view(macros@) =~= mv.push((toks@[1]@, bv)));
                            }
                        },
                    }
                } else {
                    proof {
                        assert(find_end(lv, i as int + 1) is None);
                    }
                    let start_line2 = clone_chars(&start_line);
                    let ghost ev = errs_view(errors@);
                    errors.push((AsmblerError::SyntaxError, start_line, i));
                    proof {
                        assert(errs_view(errors@) =~= ev.push(
                            (AsmblerError::SyntaxError, lv[i as int], i as int),
                        ));
                    }
                    let ghost body_spec = lv.subrange(i as int + 1, lv.len() as int);
                    let mut body: Vec<Vec<char>> = Vec::new();
                    let mut k: usize = i + 1;
                    proof {
                        assert(views_of(body@) =~= lv.subrange(i as int + 1, i as int + 1));
                    }
                    while k < lines.len()
                        invariant
                            i + 1 <= k <= lines@.len(),
                            views_of(lines@) == lv,
                            views_of(body@) =~= lv.subrange(i as int + 1, k as int),
                        decreases lines@.len() - k,
                    {
                        let ghost bv = views_of(body@);
                        body.push(clone_chars(&lines[k]));
                        proof {
                            assert(views_of(body@) =~= bv.push(lv[k as int]));
                            assert(views_of(body@) =~= lv.subrange(i as int + 1, k as int + 1));
                        }
                        k = k + 1;
                    }
                    lines.truncate(i);
                    proof {
                        assert(views_of(lines@) =~= lv.subrange(0, i as int));
                    }
                    match macro_find(&macros, &name) {
                        Some(_) => {
                            let ghost ev2 = errs_view(errors@);
                            errors.push((AsmblerError::MACROAlreadyDefined, start_line2, i));
                            proof {
                                assert(errs_view(errors@) =~= ev2.push(
                                    (AsmblerError::MACROAlreadyDefined, lv[i as int], i as int),
                                ));
                            }
                        },
                        None => {
                            let ghost mv = macros_view(macros@);
                            macros.push((name, body));
                            proof {
                                assert(views_of(macros@[macros@.len() - 1].1@) =~= body_spec);
                                assert(macros_view(macros@) =~= mv.push((toks@[1]@, body_spec)));
                            }
                        },
                    }
                }
            }
        } else {
            i = i + 1;
        }
    }
    macros
}


/// The macro-expansion pass over the collected table.
#[verifier::loop_isolation(false)]
#[verifier::rlimit(60)]
fn expand_macros(
    lines: &mut Vec<Vec<char>>,
    macros: &Vec<(Vec<char>, Vec<Vec<char>>)>,
    errors: &mut Vec<(AsmblerError, Vec<char>, usize)>,
)
    ensures
        ({
            let r = expand_pass(
                views_of(old(lines)@),
                0,
                macros_view(macros@),
                MAX_MACRO_EXPANSIONS as int,
                errs_view(old(errors)@),
            );
            views_of(final(lines)@) == r.lines && errs_view(final(errors)@) == r.errors
        }),
{
    let ghost lines0 = views_of(lines@);
    let ghost errs0 = errs_view(errors@);
    let mut budget: usize = MAX_MACRO_EXPANSIONS;
    let mut i: usize = 0;
    while i < lines.len()
        invariant
            expand_pass(lines0, 0, macros_view(macros@), MAX_MACRO_EXPANSIONS as int, errs0)
                == expand_pass(
                views_of(lines@),
                i as int,
                macros_view(macros@),
                budget as int,
                errs_view(errors@),
            ),
        decreases budget, lines@.len() - i,
    {
        let ghost lv = views_of(lines@);
        proof {
            assert(lv[i as int] == lines@[i as int]@);
        }
        let toks = tokenize(&lines[i]);
        proof {
            if toks@.len() > 0 {
                assert(views_of(toks@)[0] == toks@[0]@);
            }
            if toks@.len() > 1 {
                assert(views_of(toks@)[1] == toks@[1]@);
            }
        }
        let is_mac = toks.len() > 0 && tok_is(&toks[0], "MACRO");
        if is_mac {
            let line_clone = clone_chars(&lines[i]);
            if toks.len() != 2 {
                let ghost ev = errs_view(errors@);
                errors.push((AsmblerError::SyntaxError, line_clone, i));
                lines.remove(i);
                proof {
                    assert(errs_view(errors@) =~= ev.push(
                        (AsmblerError::SyntaxError, lv[i as int], i as int),
                    ));
                    assert(views_of(lines@) =~= remove_line(lv, i as int));
                }
            } else {
                match macro_find(macros, &toks[1]) {
                    None => {
                        let ghost ev = errs_view(errors@);
                        errors.push((AsmblerError::MACRONotDefined, line_clone, i));
                        lines.remove(i);
                        proof {
                            assert(errs_view(errors@) =~= ev.push(
                                (AsmblerError::MACRONotDefined, lv[i as int], i as int),
                            ));
                            assert(views_of(lines@) =~= remove_line(lv, i as int));
                        }
                    },
                    Some(mi) => {
                        if budget == 0 {
                            let ghost ev = errs_view(errors@);
                            errors.push((AsmblerError::MACROExpansionTooDeep, line_clone, i));
                            lines.remove(i);
                            proof {
                                assert(errs_view(errors@) =~= ev.push(
                                    (AsmblerError::MACROExpansionTooDeep, lv[i as int], i as int),
                                ));
                                assert(views_of(lines@) =~= remove_line(lv, i as int));
                            }
                        } else {
                            budget = budget - 1;
                            let ghost bodyv = views_of(macros@[mi as int].1@);
                            lines.remove(i);
                            proof {
                                assert(views_of(lines@) =~= lv.subrange(0, i as int)
                                    + bodyv.subrange(0, 0) + lv.subrange(
                                    i as int + 1,
                                    lv.len() as int,
                                ));
                            }
                            let body_len = macros[mi].1.len();
                            let mut k: usize = 0;
                            while k < body_len
                                invariant
                                    0 <= k <= body_len,
                                    mi < macros@.len(),
                                    body_len == bodyv.len(),
                                    bodyv == views_of(macros@[mi as int].1@),
                                    lines@.len() == lv.len() - 1 + k,
                                    i + 1 <= lv.len(),
                                    views_of(lines@) =~= lv.subrange(0, i as int)
                                        + bodyv.subrange(0, k as int) + lv.subrange(
                                        i as int + 1,
                                        lv.len() as int,
                                    ),
                                decreases body_len - k,
                            {
                                let ghost cur = views_of(lines@);
                                let item = clone_chars(&macros[mi].1[k]);
                                proof {
                                    assert(bodyv[k as int] == macros@[mi as int].1@[k as int]@);
                                }
                                let cur_len = lines.len();
                                proof {
                                    assert(i + k <= cur_len);
                                }
                                let pos = i + k;
                                lines.insert(pos, item);
                                proof {
                                    assert(views_of(lines@) =~= cur.insert(
                                        i as int + k as int,
                                        bodyv[k as int],
                                    ));
                                    assert(views_of(lines@) =~= lv.subrange(0, i as int)
                                        + bodyv.subrange(0, k as int + 1) + lv.subrange(
                                        i as int + 1,
                                        lv.len() as int,
                                    ));
                                }
                                k = k + 1;
                            }
                            proof {
                                assert(bodyv.subrange(0, bodyv.len() as int) =~= bodyv);
                                assert(views_of(lines@) =~= lv.subrange(0, i as int) + bodyv
                                    + lv.subrange(i as int + 1, lv.len() as int));
                            }
                        }
                    },
                }
            }
        } else {
            i = i + 1;
        }
    }
}


impl Assembly {
    /// Resolves every recorded forward reference against the completed
    /// label table, as [`patch_pass`] says.
    #[verifier::loop_isolation(false)]
    fn patch_labels(&mut self)
        requires
            wf(old(self)@),
        ensures
            final(self)@ == patch_pass(old(self)@, 0),
            wf(final(self)@),
    {
        let ghost st0 = self@;
        let n = self.unresolved.len();
        let mut k: usize = 0;
        while k < n
            invariant
                0 <= k <= n,
                n == self@.unresolved.len(),
                wf(self@),
                self@.unresolved == st0.unresolved,
                self@.labels == st0.labels,
                self@.cells.len() == st0.cells.len(),
                self@.dws == st0.dws,
                patch_pass(st0, 0) == patch_pass(self@, k as int),
            decreases n - k,
        {
            let ghost pre = self@;
            let ghost entry = pre.unresolved[k as int];
            let name = clone_chars(&self.unresolved[k].0);
            let pos = self.unresolved[k].1;
            let op = self.unresolved[k].2;
            proof {
                assert(unres_view(self.unresolved@)[k as int] == (name@, pos as int, op));
                assert(entry == (name@, pos as int, op));
            }
            match label_lookup(&self.labels, &name) {
                Some(addr) => {
                    if addr > MAX_MEM_ADDR as usize {
                        let text = unresolved_label_text(&name);
                        self.err(AsmblerError::MemoryRequestOutOfBounds, &text, 0);
                        proof {
                            assert(self@ =~= patch_one(pre, entry));
                        }
                    } else {
                        self.cells.set(pos, Cell::Code { opcode: op, operand: addr as i32 });
                        proof {
                            assert(self@ =~= patch_one(pre, entry));
                        }
                    }
                },
                None => {
                    let text = unresolved_label_text(&name);
                    self.err(AsmblerError::InvalidOperand, &text, 0);
                    proof {
                        assert(self@ =~= patch_one(pre, entry));
                    }
                },
            }
            k = k + 1;
        }
    }
}

/// Applies the `dw` side table to the image, as [`dw_pass`] says.
#[verifier::loop_isolation(false)]
fn apply_dws(cells: &mut Vec<Cell>, dws: &Vec<(u32, i32)>)
    requires
        forall|k: int| 0 <= k < old(cells)@.len() ==> cell_wf(#[trigger] old(cells)@[k]),
        forall|k: int|
            0 <= k < dws@.len() ==> (#[trigger] dws@[k]).0 <= MAX_MEM_ADDR && -9999 <= dws@[k].1
                <= 9999,
    ensures
        final(cells)@ == dw_pass(old(cells)@, dws@, 0),
        forall|k: int| 0 <= k < final(cells)@.len() ==> cell_wf(#[trigger] final(cells)@[k]),
{
    let ghost cells0 = cells@;
    let n = dws.len();
    let mut k: usize = 0;
    while k < n
        invariant
            0 <= k <= n,
            n == dws@.len(),
            forall|j: int| 0 <= j < cells@.len() ==> cell_wf(#[trigger] cells@[j]),
            dw_pass(cells0, dws@, 0) == dw_pass(cells@, dws@, k as int),
        decreases n - k,
    {
        let ghost pre = cells@;
        let addr = dws[k].0 as usize;
        let lit = dws[k].1;
        if addr >= cells.len() {
            while cells.len() < addr + 1
                invariant
                    cells@.len() <= addr + 1,
                    pre.len() <= cells@.len(),
                    cells@ =~= pre + filler_cells(cells@.len() - pre.len()),
                decreases addr + 1 - cells@.len(),
            {
                let ghost c = cells@;
                cells.push(Cell::Code { opcode: 0, operand: 0 });
                proof {
                    assert(cells@ =~= pre + filler_cells(cells@.len() - pre.len()));
                }
            }
            proof {
                assert(cells@ =~= pre + filler_cells(addr + 1 - pre.len()));
            }
        }
        cells.set(addr, Cell::Code { opcode: 0, operand: lit });
        proof {
            assert(cells@ =~= dw_apply(pre, addr as int, lit));
        }
        k = k + 1;
    }
}

/// Renders the image as newline-joined word text, as [`join_upto`] says.
#[verifier::loop_isolation(false)]
fn join_cells(cells: &Vec<Cell>) -> (r: Vec<char>)
    requires
        forall|k: int| 0 <= k < cells@.len() ==> cell_wf(#[trigger] cells@[k]),
    ensures
        r@ == join_upto(cells@, cells@.len() as int),
{
    let n = cells.len();
    let mut r: Vec<char> = Vec::new();
    let mut k: usize = 0;
    proof {
        assert(r@ =~= join_upto(cells@, 0));
    }
    while k < n
        invariant
            0 <= k <= n,
            n == cells@.len(),
            r@ == join_upto(cells@, k as int),
        decreases n - k,
    {
        let ghost before = r@;
        if k > 0 {
            r.push('\n');
        }
        let cell = cells[k];
        match cell {
            Cell::Code { opcode, operand } => {
                proof {
                    assert(cell_wf(cells@[k as int]));
                }
                let mut t = crate::word::format_instruction_chars(opcode, operand);
                r.append(&mut t);
            },
            Cell::Blank => {},
        }
        proof {
            if k == 0 {
                assert(r@ =~= cell_text(cells@[0]));
                assert(r@ =~= join_upto(cells@, 1));
            } else {
                assert(r@ =~= join_upto(cells@, k as int) + seq!['\n'] + cell_text(
                    cells@[k as int],
                ));
                assert(r@ =~= join_upto(cells@, k as int + 1));
            }
        }
        k = k + 1;
    }
    r
}

impl AssembledContents {
    /// Whether the run recorded any error.
    pub fn has_errors(&self) -> (r: bool)
        ensures
            r == (self.errors@.len() > 0),
    {
        !self.errors.is_empty()
    }
}

/// What assembly hands back: the output word text, the accumulated error
/// list, and the pass-through flags. `results` is reserved and empty.
pub struct AssembledContents {
    pub contents: String,
    pub results: String,
    pub flags: Vec<String>,
    pub errors: Vec<(AsmblerError, String, usize)>,
}

impl Asmbler {
    /// Assembles a source text into the newline-joined word text of the
    /// program image, together with every recorded error, exactly as
    /// [`assemble_spec`] describes.
    #[verifier::loop_isolation(false)]
    pub fn assemble(contents: String, flags: Vec<String>) -> (r: AssembledContents)
        ensures
            ({
                let out = assemble_spec(contents@);
                &&& r.contents@ == out.text
                &&& r.results@.len() == 0
                &&& r.flags == flags
                &&& r.errors@.len() == out.errors.len()
                &&& forall|k: int|
                    0 <= k < out.errors.len() ==> (#[trigger] r.errors@[k]).0 == out.errors[k].0
                        && r.errors@[k].1@ == out.errors[k].1 && r.errors@[k].2 as int
                        == out.errors[k].2
            }),
    {
        let chars = str_to_chars(contents.as_str());
        let mut lines = split_lines(&chars);
        let mut errors_raw: Vec<(AsmblerError, Vec<char>, usize)> = Vec::new();
        proof {
            assert(errs_view(errors_raw@) =~= Seq::<(AsmblerError, Seq<char>, int)>::empty());
        }
        let macros = collect_macros(&mut lines, &mut errors_raw);
        expand_macros(&mut lines, &macros, &mut errors_raw);
        let mut st = Assembly {
            cells: Vec::new(),
            labels: Vec::new(),
            unresolved: Vec::new(),
            dws: Vec::new(),
            errors: errors_raw,
        };
        let ghost e = expand_pass(
            collect_pass(split_lines_spec(contents@), 0, Seq::empty(), Seq::empty()).lines,
            0,
            collect_pass(split_lines_spec(contents@), 0, Seq::empty(), Seq::empty()).macros,
            MAX_MACRO_EXPANSIONS as int,
            collect_pass(split_lines_spec(contents@), 0, Seq::empty(), Seq::empty()).errors,
        );
        let ghost st0 = PassState {
            cells: Seq::empty(),
            labels: Seq::empty(),
            unresolved: Seq::empty(),
            dws: Seq::empty(),
            errors: e.errors,
        };
        proof {
            assert(labels_view(st.labels@) =~= Seq::<(Seq<char>, int)>::empty());
            assert(unres_view(st.unresolved@) =~= Seq::<(Seq<char>, int, u32)>::empty());
            assert(st@ =~= st0);
        }
        let ghost linesv = views_of(lines@);
        let n = lines.len();
        let mut i: usize = 0;
        while i < n
            invariant
                0 <= i <= n,
                n == lines@.len(),
                views_of(lines@) == linesv,
                wf(st@),
                encode_pass(linesv, 0, st0) == encode_pass(linesv, i as int, st@),
            decreases n - i,
        {
            proof {
                assert(linesv[i as int] == lines@[i as int]@);
            }
            st.encode_line(&lines[i], i);
            i = i + 1;
        }
        st.emit(45, 0);
        let ghost st2 = st@;
        st.patch_labels();
        let ghost st3 = st@;
        proof {
            assert(st@.cells == st.cells@);
            assert(st@.dws == st.dws@);
            assert(wf(st@));
            assert(forall|j: int| 0 <= j < st.cells@.len() ==> cell_wf(#[trigger] st.cells@[j]));
            assert(forall|j: int|
                0 <= j < st.dws@.len() ==> (#[trigger] st.dws@[j]).0 <= MAX_MEM_ADDR && -9999
                    <= st.dws@[j].1 <= 9999);
        }
        apply_dws(&mut st.cells, &st.dws);
        proof {
            assert(st3.dws == st.dws@);
        }
        let out_chars = join_cells(&st.cells);
        let contents_out = chars_to_string(&out_chars);
        let m = st.errors.len();
        let mut errs: Vec<(AsmblerError, String, usize)> = Vec::new();
        let mut k: usize = 0;
        while k < m
            invariant
                0 <= k <= m,
                m == st.errors@.len(),
                errs@.len() == k,
                forall|j: int|
                    0 <= j < k ==> (#[trigger] errs@[j]).0 == st.errors@[j].0 && errs@[j].1@
                        == st.errors@[j].1@ && errs@[j].2 == st.errors@[j].2,
            decreases m - k,
        {
            let text = chars_to_string(&st.errors[k].1);
            errs.push((st.errors[k].0, text, st.errors[k].2));
            k = k + 1;
        }
        proof {
            assert(errs_view(st.errors@) == st3.errors);
        }
        AssembledContents { contents: contents_out, results: String::new(), flags, errors: errs }
    }
}


/// Whether a token has the shape of a direct memory operand `[N]`.
pub fn is_like_mem_addr(text: &str) -> (r: bool)
    ensures
        r == is_mem_addr_spec(text@),
{
    let v = str_to_chars(text);
    match mem_addr_parse(&v) {
        Some(_) => true,
        None => false,
    }
}

/// Whether a token parses as a signed integer literal.
pub fn is_like_lit(text: &str) -> (r: bool)
    ensures
        r == is_lit_spec(text@),
{
    let v = str_to_chars(text);
    match parse_int_chars(&v) {
        Some(_) => true,
        None => false,
    }
}

/// Parses a literal operand; a malformed one is an invalid operand.
pub fn parse_lit(text: &str) -> (r: Result<i32, AsmblerError>)
    ensures
        is_lit_spec(text@) ==> r == Ok::<i32, AsmblerError>(lit_val(text@)),
        !is_lit_spec(text@) ==> r == Err::<i32, AsmblerError>(AsmblerError::InvalidOperand),
{
    let v = str_to_chars(text);
    match parse_int_chars(&v) {
        Some(val) => Ok(val),
        None => Err(AsmblerError::InvalidOperand),
    }
}

/// Parses a direct memory operand; a token without the `[N]` shape is a
/// syntax error.
pub fn parse_mem_addr(text: &str) -> (r: Result<u32, AsmblerError>)
    ensures
        is_mem_addr_spec(text@) ==> r == Ok::<u32, AsmblerError>(mem_addr_val(text@)),
        !is_mem_addr_spec(text@) ==> r == Err::<u32, AsmblerError>(AsmblerError::SyntaxError),
{
    let v = str_to_chars(text);
    match mem_addr_parse(&v) {
        Some(addr) => Ok(addr),
        None => Err(AsmblerError::SyntaxError),
    }
}


/// A backward-referenced branch (label already defined) and a
/// forward-referenced branch (patched afterwards) to the same address
/// produce the identical encoded word.
pub proof fn lemma_label_resolution_agrees(
    st1: PassState,
    st2: PassState,
    line: Seq<char>,
    idx: int,
    toks: Seq<Seq<char>>,
    opcode: u32,
    name: Seq<char>,
    pos: int,
    addr: int,
)
    requires
        toks.len() == 2,
        toks[1] == name,
        assoc_get(st1.labels, name) == Some(addr),
        assoc_get(st2.labels, name) == Some(addr),
        0 <= addr <= MAX_MEM_ADDR,
        0 <= pos < st2.cells.len(),
    ensures
        step_branch(st1, line, idx, toks, opcode).cells.last() == (Cell::Code {
            opcode,
            operand: addr as i32,
        }),
        patch_one(st2, (name, pos, opcode)).cells[pos] == (Cell::Code {
            opcode,
            operand: addr as i32,
        }),
{
}

/// A duplicate label definition is reported and never changes the stored
/// address, the image, or anything else in the pass state.
pub proof fn lemma_duplicate_label_keeps_address(
    st: PassState,
    line: Seq<char>,
    idx: int,
    name: Seq<char>,
)
    requires
        assoc_get(st.labels, name) is Some,
    ensures
        step_label(st, line, idx, name).labels == st.labels,
        step_label(st, line, idx, name).cells == st.cells,
        step_label(st, line, idx, name).unresolved == st.unresolved,
        step_label(st, line, idx, name).dws == st.dws,
        step_label(st, line, idx, name).errors == st.errors.push(
            (AsmblerError::LabelAlreadyDefined, line, idx),
        ),
{
}

/// Every line contributes at most diagnostics to the error list and never
/// erases earlier ones: assembly continues past every error.
pub proof fn lemma_encode_step_keeps_errors(st: PassState, line: Seq<char>, idx: int)
    ensures
        st.errors.len() <= encode_step(st, line, idx).errors.len(),
        forall|k: int|
            0 <= k < st.errors.len() ==> #[trigger] encode_step(st, line, idx).errors[k]
                == st.errors[k],
{
}

/// Applying one `dw` placement never shrinks the image.
pub proof fn lemma_dw_apply_never_shrinks(cells: Seq<Cell>, addr: int, lit: i32)
    requires
        0 <= addr,
    ensures
        dw_apply(cells, addr, lit).len() >= cells.len(),
{
}

/// The whole `dw` pass never shrinks the image.
pub proof fn lemma_dw_pass_never_shrinks(cells: Seq<Cell>, dws: Seq<(u32, i32)>, k: int)
    ensures
        dw_pass(cells, dws, k).len() >= cells.len(),
    decreases dws.len() - k,
{
    if k < 0 || k >= dws.len() {
    } else {
        lemma_dw_pass_never_shrinks(dw_apply(cells, dws[k].0 as int, dws[k].1), dws, k + 1);
        lemma_dw_apply_never_shrinks(cells, dws[k].0 as int, dws[k].1);
    }
}

/// Placements at distinct addresses commute: each `dw` write is
/// independent, so their application order does not matter.
pub proof fn lemma_dw_apply_commutes(cells: Seq<Cell>, a1: int, l1: i32, a2: int, l2: i32)
    requires
        0 <= a1,
        0 <= a2,
        a1 != a2,
    ensures
        dw_apply(dw_apply(cells, a1, l1), a2, l2) == dw_apply(dw_apply(cells, a2, l2), a1, l1),
{
    let x = dw_apply(dw_apply(cells, a1, l1), a2, l2);
    let y = dw_apply(dw_apply(cells, a2, l2), a1, l1);
    assert forall|i: int| 0 <= i < x.len() implies x[i] == y[i] by {
        assert(dw_apply(cells, a1, l1).len() >= cells.len());
        assert(dw_apply(cells, a2, l2).len() >= cells.len());
    }
    assert(x =~= y);
}

/// A branch to a label that is still undefined after the whole pass
/// yields exactly one invalid-operand error whose message names the
/// label, and leaves the image unchanged.
pub proof fn lemma_unresolved_label_reports(st: PassState, entry: (Seq<char>, int, u32))
    requires
        assoc_get(st.labels, entry.0) is None,
    ensures
        patch_one(st, entry).errors == st.errors.push(
            (AsmblerError::InvalidOperand, "Unresolved label: "@ + entry.0, 0),
        ),
        patch_one(st, entry).cells == st.cells,
{
}

} // verus!
