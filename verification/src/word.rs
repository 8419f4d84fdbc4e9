//! The machine-word codec: the sign-magnitude packed integer encoding
//! `<sign><2-digit opcode><4-digit |operand|>` shared by the assembler and
//! the simulator, together with the memory geometry constants.

use vstd::prelude::*;

verus! {

/// Greatest value a machine word may hold.
pub const MAX_WORD: i32 = 999999;
/// Least value a machine word may hold.
pub const MIN_WORD: i32 = -999999;
/// Greatest operand magnitude the packed word format can carry.
pub const MAX_OPERAND: i32 = 9999;
/// Greatest addressable memory location.
pub const MAX_MEM_ADDR: u32 = 9999;
/// Number of memory pages (an address-grouping convenience for dumps).
pub const MEMORY_PAGES: usize = 100;
/// Number of words in each memory page.
pub const MEMORY_WORDS_PER_PAGE: usize = 100;
/// Total memory capacity in words.
pub const MAX_MEMORY: usize = 10000;
/// Number of opcode dispatch slots.
pub const INSTR_HANDLER_COUNT: usize = 50;

/// Every register and memory cell is constrained to this range.
pub open spec fn in_word_range(v: int) -> bool {
    -999999 <= v <= 999999
}

pub open spec fn abs_val(v: int) -> int {
    if v < 0 {
        -v
    } else {
        v
    }
}

/// The opcode field of a packed word: the unsigned upper two decimal digits.
pub open spec fn word_opcode(w: int) -> int {
    abs_val(w) / 10000
}

/// The operand field of a packed word: the lower four decimal digits,
/// carrying the sign of the whole word.
pub open spec fn word_operand(w: int) -> int {
    if w < 0 {
        -(abs_val(w) % 10000)
    } else {
        abs_val(w) % 10000
    }
}

/// Packing an opcode and an operand into a word: the sign reflects the
/// operand's sign only; the opcode is always unsigned.
pub open spec fn encode_word_spec(opcode: int, operand: int) -> int {
    if operand < 0 {
        -(opcode * 10000 + (-operand))
    } else {
        opcode * 10000 + operand
    }
}

/// Decoding inverts encoding for every opcode the dispatch table can hold
/// and every operand the four-digit magnitude field can carry.
pub proof fn lemma_word_round_trip(opcode: int, operand: int)
    requires
        0 <= opcode < INSTR_HANDLER_COUNT,
        -9999 <= operand <= 9999,
    ensures
        word_opcode(encode_word_spec(opcode, operand)) == opcode,
        word_operand(encode_word_spec(opcode, operand)) == operand,
        in_word_range(encode_word_spec(opcode, operand)),
{
    let w = encode_word_spec(opcode, operand);
    assert(abs_val(w) == opcode * 10000 + abs_val(operand));
    assert((opcode * 10000 + abs_val(operand)) / 10000 == opcode) by (nonlinear_arith)
        requires
            0 <= opcode,
            0 <= abs_val(operand) < 10000,
    ;
    assert((opcode * 10000 + abs_val(operand)) % 10000 == abs_val(operand)) by (nonlinear_arith)
        requires
            0 <= opcode,
            0 <= abs_val(operand) < 10000,
    ;
}

/// Packs an opcode and operand into a machine word.
pub fn encode_word(opcode: u32, operand: i32) -> (w: i32)
    requires
        opcode < 100,
        -9999 <= operand <= 9999,
    ensures
        w as int == encode_word_spec(opcode as int, operand as int),
        in_word_range(w as int),
{
    let base = (opcode * 10000) as i32;
    if operand < 0 {
        -(base + (-operand))
    } else {
        base + operand
    }
}

/// Extracts the opcode field of a fetched word.
pub fn read_opcode(instr: i32) -> (r: i32)
    requires
        in_word_range(instr as int),
    ensures
        r as int == word_opcode(instr as int),
        0 <= r <= 99,
{
    let mag = (if instr < 0 {
        -instr
    } else {
        instr
    }) as u32;
    (mag / 10000) as i32
}

/// Extracts the signed operand field of a fetched word.
pub fn read_operand(instr: i32) -> (r: i32)
    requires
        in_word_range(instr as int),
    ensures
        r as int == word_operand(instr as int),
        -9999 <= r <= 9999,
{
    let mag = (if instr < 0 {
        -instr
    } else {
        instr
    }) as u32;
    let operand = (mag % 10000) as i32;
    if instr < 0 {
        -operand
    } else {
        operand
    }
}

/// Splits a memory address into its (page, offset) pair, used only for
/// diagnostic dump formatting.
pub fn calculate_page_address(index: i32) -> (r: (i32, i32))
    requires
        0 <= index < MAX_MEMORY,
    ensures
        r.0 == index as int / 100,
        r.1 == index as int % 100,
        r.0 * 100 + r.1 == index as int,
        0 <= r.0 < 100,
        0 <= r.1 < 100,
{
    let page = (index as u32) / 100;
    let offset = (index as u32) % 100;
    (page as i32, offset as i32)
}

/// The character for a single decimal digit.
pub open spec fn digit_char(d: int) -> char {
    if d == 0 {
        '0'
    } else if d == 1 {
        '1'
    } else if d == 2 {
        '2'
    } else if d == 3 {
        '3'
    } else if d == 4 {
        '4'
    } else if d == 5 {
        '5'
    } else if d == 6 {
        '6'
    } else if d == 7 {
        '7'
    } else if d == 8 {
        '8'
    } else {
        '9'
    }
}

/// The seven-character interchange form of an instruction word:
/// sign, two opcode digits, four operand-magnitude digits.
pub open spec fn format_instruction_spec(opcode: int, operand: int) -> Seq<char> {
    let sign = if operand < 0 {
        '-'
    } else {
        '+'
    };
    let mag = abs_val(operand);
    seq![
        sign,
        digit_char(opcode / 10),
        digit_char(opcode % 10),
        digit_char(mag / 1000),
        digit_char((mag / 100) % 10),
        digit_char((mag / 10) % 10),
        digit_char(mag % 10),
    ]
}

fn digit_to_char(d: u32) -> (c: char)
    requires
        d < 10,
    ensures
        c == digit_char(d as int),
{
    match d {
        0 => '0',
        1 => '1',
        2 => '2',
        3 => '3',
        4 => '4',
        5 => '5',
        6 => '6',
        7 => '7',
        8 => '8',
        _ => '9',
    }
}

/// Serializes one instruction to the fixed word text format.
pub fn format_instruction_chars(opcode: u32, operand: i32) -> (r: Vec<char>)
    requires
        opcode < 100,
        -9999 <= operand <= 9999,
    ensures
        r@ == format_instruction_spec(opcode as int, operand as int),
{
    let mag = (if operand < 0 {
        -operand
    } else {
        operand
    }) as u32;
    let mut r: Vec<char> = Vec::new();
    r.push(if operand < 0 {
        '-'
    } else {
        '+'
    });
    r.push(digit_to_char(opcode / 10));
    r.push(digit_to_char(opcode % 10));
    r.push(digit_to_char(mag / 1000));
    r.push(digit_to_char((mag / 100) % 10));
    r.push(digit_to_char((mag / 10) % 10));
    r.push(digit_to_char(mag % 10));
    proof {
        assert(r@ =~= format_instruction_spec(opcode as int, operand as int));
    }
    r
}

/// Serializes one instruction to the fixed word text format as a string.
pub fn format_instruction(opcode: u32, operand: i32) -> (r: String)
    requires
        opcode < 100,
        -9999 <= operand <= 9999,
    ensures
        r@ == format_instruction_spec(opcode as int, operand as int),
{
    let v = format_instruction_chars(opcode, operand);
    crate::text::chars_to_string(&v)
}

} // verus!
