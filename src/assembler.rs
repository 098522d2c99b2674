use vstd::prelude::*;
use crate::instructions::{Instruction, encode, is_opcode, opcode_len};
use crate::decoder::opcode_length;
use crate::lexer::{Words, statements, tokenize, lemma_chars_deep_view};

verus! {

/// Why a source text does not assemble.
#[derive(Clone, Copy, Debug, PartialEq, Eq, Structural)]
pub enum AssemblyError {
    /// A statement names no known instruction.
    UnknownMnemonic,
    /// An instruction has more or fewer operands than it takes.
    WrongOperandCount,
    /// A register operand is not `r` followed by a decimal numeral.
    MalformedRegister,
    /// A register operand names a register past `r15`.
    RegisterOutOfRange,
    /// A numeric operand is not a decimal or `0x` hexadecimal numeral.
    MalformedNumber,
    /// A numeric operand does not fit in 16 bits.
    NumberOutOfRange,
    /// A jump names a label that no statement declares.
    UndefinedLabel,
}

/// The value of a digit character in bases up to 16, or 16 for any other
/// character.
pub open spec fn digit_value(c: char) -> nat {
    let u = c as u32;
    if 0x30 <= u && u <= 0x39 {
        (u - 0x30) as nat
    } else if 0x61 <= u && u <= 0x66 {
        (u - 0x61 + 10) as nat
    } else if 0x41 <= u && u <= 0x46 {
        (u - 0x41 + 10) as nat
    } else {
        16
    }
}

/// Whether `s` is a non-empty string of digits of base `radix`.
pub open spec fn is_numeral(s: Seq<char>, radix: nat) -> bool {
    s.len() > 0 && forall|i: int| 0 <= i < s.len() ==> #[trigger] digit_value(s[i]) < radix
}

/// The value of the digits `s` in base `radix`, most significant first.
pub open spec fn numeral_value(s: Seq<char>, radix: nat) -> nat
    decreases s.len(),
{
    if s.len() == 0 {
        0
    } else {
        numeral_value(s.drop_last(), radix) * radix + digit_value(s.last())
    }
}

/// The digits of an unsigned numeral: without its one leading `+`, if any.
pub open spec fn unsigned_digits(s: Seq<char>) -> Seq<char> {
    if s.len() > 0 && s[0] == '+' {
        s.drop_first()
    } else {
        s
    }
}

/// A register operand: `r` followed by a decimal numeral below 16.
pub open spec fn register_spec(tok: Seq<char>) -> Result<u8, AssemblyError> {
    if tok.len() == 0 || tok[0] != 'r' {
        Err(AssemblyError::MalformedRegister)
    } else if !is_numeral(unsigned_digits(tok.drop_first()), 10) {
        Err(AssemblyError::MalformedRegister)
    } else if numeral_value(unsigned_digits(tok.drop_first()), 10) >= 16 {
        Err(AssemblyError::RegisterOutOfRange)
    } else {
        Ok(numeral_value(unsigned_digits(tok.drop_first()), 10) as u8)
    }
}

/// Whether a token starts with the hexadecimal prefix `0x`.
pub open spec fn has_hex_prefix(tok: Seq<char>) -> bool {
    tok.len() >= 2 && tok[0] == '0' && tok[1] == 'x'
}

/// The base in which a numeric token is read.
pub open spec fn radix_of(tok: Seq<char>) -> nat {
    if has_hex_prefix(tok) { 16 } else { 10 }
}

/// The digits of a numeric token.
pub open spec fn number_digits(tok: Seq<char>) -> Seq<char> {
    if has_hex_prefix(tok) {
        unsigned_digits(tok.skip(2))
    } else {
        unsigned_digits(tok)
    }
}

/// A numeric operand: hexadecimal after `0x`, else decimal, at most 0xFFFF.
pub open spec fn number_spec(tok: Seq<char>) -> Result<u16, AssemblyError> {
    if !is_numeral(number_digits(tok), radix_of(tok)) {
        Err(AssemblyError::MalformedNumber)
    } else if numeral_value(number_digits(tok), radix_of(tok)) > 0xFFFF {
        Err(AssemblyError::NumberOutOfRange)
    } else {
        Ok(numeral_value(number_digits(tok), radix_of(tok)) as u16)
    }
}

/// The smaller of a value and 0x10000.
pub open spec fn capped(v: nat) -> nat {
    if v < 0x10000 { v } else { 0x10000 }
}

fn digit_value_exec(c: char) -> (r: u32)
    ensures
        r == digit_value(c),
{
    let u = c as u32;
    if 0x30 <= u && u <= 0x39 {
        u - 0x30
    } else if 0x61 <= u && u <= 0x66 {
        u - 0x61 + 10
    } else if 0x41 <= u && u <= 0x46 {
        u - 0x41 + 10
    } else {
        16
    }
}

proof fn lemma_capped_step(v: nat, radix: nat, d: nat)
    requires
        1 <= radix <= 16,
        d < radix,
    ensures
        capped(v * radix + d) == capped(capped(v) * radix + d),
{
    if v >= 0x10000 {
        assert(v * radix >= v) by (nonlinear_arith)
            requires radix >= 1;
        assert(0x10000 * radix >= 0x10000) by (nonlinear_arith)
            requires radix >= 1;
    }
}

/// Reads the digits of `t` from `start` on in base `radix`: `None` unless
/// they form a numeral, else its value capped at 0x10000.
fn read_numeral(t: &Vec<char>, start: usize, radix: u32) -> (r: Option<u32>)
    requires
        start <= t@.len(),
        2 <= radix <= 16,
    ensures
        match r {
            None => !is_numeral(t@.skip(start as int), radix as nat),
            Some(v) => is_numeral(t@.skip(start as int), radix as nat)
                && v == capped(numeral_value(t@.skip(start as int), radix as nat)),
        },
{
    let ghost s = t@.skip(start as int);
    if start >= t.len() {
        return None;
    }
    let mut acc: u32 = 0;
    let mut i: usize = start;
    while i < t.len()
        invariant
            start <= i <= t@.len(),
            s == t@.skip(start as int),
            2 <= radix <= 16,
            forall|j: int| 0 <= j < i - start ==> #[trigger] digit_value(s[j]) < radix,
            acc == capped(numeral_value(s.take(i - start), radix as nat)),
        decreases t@.len() - i,
    {
        let d = digit_value_exec(t[i]);
        assert(s[i - start] == t@[i as int]);
        if d >= radix {
            return None;
        }
        let ghost k = i - start;
        assert(s.take(k + 1).drop_last() =~= s.take(k));
        proof {
            lemma_capped_step(numeral_value(s.take(k), radix as nat), radix as nat, d as nat);
        }
        if acc < 0x10000 {
            assert(acc * radix <= 0x10000 * 16) by (nonlinear_arith)
                requires acc < 0x10000, radix <= 16;
            acc = acc * radix + d;
            if acc > 0x10000 {
                acc = 0x10000;
            }
        }
        i = i + 1;
    }
    assert(s.take(s.len() as int) =~= s);
    Some(acc)
}

/// Parses a register operand `r0` to `r15`.
pub fn parse_register(tok: &Vec<char>) -> (r: Result<u8, AssemblyError>)
    ensures
        r == register_spec(tok@),
{
    if tok.len() == 0 || tok[0] != 'r' {
        return Err(AssemblyError::MalformedRegister);
    }
    let start: usize = if tok.len() > 1 && tok[1] == '+' { 2 } else { 1 };
    assert(tok@.skip(start as int) =~= unsigned_digits(tok@.drop_first()));
    match read_numeral(tok, start, 10) {
        None => Err(AssemblyError::MalformedRegister),
        Some(v) => {
            if v >= 16 {
                Err(AssemblyError::RegisterOutOfRange)
            } else {
                Ok(v as u8)
            }
        },
    }
}

/// Parses a 16-bit numeric operand, hexadecimal after `0x`, else decimal.
pub fn parse_u16(tok: &Vec<char>) -> (r: Result<u16, AssemblyError>)
    ensures
        r == number_spec(tok@),
{
    let hex = tok.len() >= 2 && tok[0] == '0' && tok[1] == 'x';
    let mut start: usize = if hex { 2 } else { 0 };
    let radix: u32 = if hex { 16 } else { 10 };
    if tok.len() > start && tok[start] == '+' {
        start = start + 1;
    }
    assert(tok@.skip(start as int) =~= number_digits(tok@));
    match read_numeral(tok, start, radix) {
        None => Err(AssemblyError::MalformedNumber),
        Some(v) => {
            if v > 0xFFFF {
                Err(AssemblyError::NumberOutOfRange)
            } else {
                Ok(v as u16)
            }
        },
    }
}


/// The name of the instruction with opcode `op`, in lower case.
pub open spec fn mnemonic(op: u8) -> Seq<char> {
    if op == 0x01 {
        seq!['m', 'o', 'v', 'i', 'm', 'm']
    } else if op == 0x02 {
        seq!['m', 'o', 'v']
    } else if op == 0x03 {
        seq!['l', 'o', 'a', 'd']
    } else if op == 0x04 {
        seq!['s', 't', 'o', 'r', 'e']
    } else if op == 0x05 {
        seq!['a', 'd', 'd']
    } else if op == 0x06 {
        seq!['s', 'u', 'b']
    } else if op == 0x07 {
        seq!['c', 'm', 'p']
    } else if op == 0x08 {
        seq!['j', 'm', 'p']
    } else if op == 0x09 {
        seq!['j', 'm', 'p', 'z']
    } else if op == 0x0A {
        seq!['j', 'm', 'p', 'n', 'z']
    } else {
        seq!['h', 'a', 'l', 't']
    }
}

/// The code of a character with ASCII upper case letters made lower case.
pub open spec fn folded(c: char) -> u32 {
    let u = c as u32;
    if 0x41 <= u && u <= 0x5A {
        (u + 0x20) as u32
    } else {
        u
    }
}

/// Whether a token spells `name` in any mix of upper and lower case.
pub open spec fn spells(tok: Seq<char>, name: Seq<char>) -> bool {
    tok.len() == name.len() && forall|i: int| 0 <= i < tok.len() ==> #[trigger] folded(tok[i]) == name[i] as u32
}

/// The opcode that a mnemonic token names.
pub open spec fn mnemonic_opcode(tok: Seq<char>) -> Option<u8> {
    if spells(tok, mnemonic(0x01)) {
        Some(0x01u8)
    } else if spells(tok, mnemonic(0x02)) {
        Some(0x02u8)
    } else if spells(tok, mnemonic(0x03)) {
        Some(0x03u8)
    } else if spells(tok, mnemonic(0x04)) {
        Some(0x04u8)
    } else if spells(tok, mnemonic(0x05)) {
        Some(0x05u8)
    } else if spells(tok, mnemonic(0x06)) {
        Some(0x06u8)
    } else if spells(tok, mnemonic(0x07)) {
        Some(0x07u8)
    } else if spells(tok, mnemonic(0x08)) {
        Some(0x08u8)
    } else if spells(tok, mnemonic(0x09)) {
        Some(0x09u8)
    } else if spells(tok, mnemonic(0x0A)) {
        Some(0x0Au8)
    } else if spells(tok, mnemonic(0xFF)) {
        Some(0xFFu8)
    } else {
        None
    }
}

fn mnemonic_exec(op: u8) -> (r: Vec<char>)
    ensures
        r@ == mnemonic(op),
{
    let r = if op == 0x01 {
        vec!['m', 'o', 'v', 'i', 'm', 'm']
    } else if op == 0x02 {
        vec!['m', 'o', 'v']
    } else if op == 0x03 {
        vec!['l', 'o', 'a', 'd']
    } else if op == 0x04 {
        vec!['s', 't', 'o', 'r', 'e']
    } else if op == 0x05 {
        vec!['a', 'd', 'd']
    } else if op == 0x06 {
        vec!['s', 'u', 'b']
    } else if op == 0x07 {
        vec!['c', 'm', 'p']
    } else if op == 0x08 {
        vec!['j', 'm', 'p']
    } else if op == 0x09 {
        vec!['j', 'm', 'p', 'z']
    } else if op == 0x0A {
        vec!['j', 'm', 'p', 'n', 'z']
    } else {
        vec!['h', 'a', 'l', 't']
    };
    assert(r@ =~= mnemonic(op));
    r
}

fn spells_exec(tok: &Vec<char>, name: &Vec<char>) -> (r: bool)
    ensures
        r == spells(tok@, name@),
{
    if tok.len() != name.len() {
        return false;
    }
    let mut i: usize = 0;
    while i < tok.len()
        invariant
            tok@.len() == name@.len(),
            i <= tok@.len(),
            forall|j: int| 0 <= j < i ==> #[trigger] folded(tok@[j]) == name@[j] as u32,
        decreases tok@.len() - i,
    {
        let u = tok[i] as u32;
        let f = if 0x41 <= u && u <= 0x5A { u + 0x20 } else { u };
        if f != name[i] as u32 {
            assert(folded(tok@[i as int]) != name@[i as int] as u32);
            return false;
        }
        i = i + 1;
    }
    true
}

/// The opcode that a mnemonic token names, if any.
fn mnemonic_code(tok: &Vec<char>) -> (r: Option<u8>)
    ensures
        r == mnemonic_opcode(tok@),
{
    let mut op: u8 = 0x01;
    while op <= 0x0A
        invariant
            1 <= op <= 0x0B,
            forall|o: u8| 1 <= o < op ==> !spells(tok@, #[trigger] mnemonic(o)),
        decreases 0x0B - op,
    {
        if spells_exec(tok, &mnemonic_exec(op)) {
            return Some(op);
        }
        op = op + 1;
    }
    if spells_exec(tok, &mnemonic_exec(0xFF)) {
        Some(0xFF)
    } else {
        None
    }
}

/// The encoded length of the instruction that a mnemonic token names.
fn find_instr_length(tok: &Vec<char>) -> (r: Result<u16, AssemblyError>)
    ensures
        r == match mnemonic_opcode(tok@) {
            Some(op) => Ok::<u16, AssemblyError>(opcode_len(op) as u16),
            None => Err(AssemblyError::UnknownMnemonic),
        },
{
    match mnemonic_code(tok) {
        Some(op) => Ok(opcode_length(op)),
        None => Err(AssemblyError::UnknownMnemonic),
    }
}


/// Label names and the addresses they denote, in order of declaration.
pub type LabelTable = Seq<(Seq<char>, u16)>;

/// Whether a token declares a label: it ends in a colon.
pub open spec fn is_label_token(tok: Seq<char>) -> bool {
    tok.len() > 0 && tok.last() == ':'
}

/// The label that a token declares: the token without its trailing colons.
pub open spec fn label_name(tok: Seq<char>) -> Seq<char>
    decreases tok.len(),
{
    if is_label_token(tok) {
        label_name(tok.drop_last())
    } else {
        tok
    }
}

/// Whether a statement starts with a label.
pub open spec fn has_label(st: Words) -> bool {
    st.len() > 0 && is_label_token(st[0])
}

/// Where the mnemonic of a statement stands, after its label if any.
pub open spec fn mnemonic_index(st: Words) -> int {
    if has_label(st) { 1 } else { 0 }
}

/// Whether a statement holds an instruction, not a label alone.
pub open spec fn has_instruction(st: Words) -> bool {
    mnemonic_index(st) < st.len()
}

/// The address a label denotes in a table: its latest declaration wins.
pub open spec fn lookup(table: LabelTable, name: Seq<char>) -> Option<u16>
    decreases table.len(),
{
    if table.len() == 0 {
        None
    } else if table.last().0 == name {
        Some(table.last().1)
    } else {
        lookup(table.drop_last(), name)
    }
}

/// The first pass over the statements: the label table, and the number of
/// bytes of code. Each label denotes the address (modulo 2^16) where the code
/// of its statement starts. Fails on the first unknown mnemonic.
pub open spec fn pass_one(sts: Seq<Words>) -> Result<(LabelTable, nat), AssemblyError>
    decreases sts.len(),
{
    if sts.len() == 0 {
        Ok((seq![], 0))
    } else {
        match pass_one(sts.drop_last()) {
            Err(e) => Err(e),
            Ok((table, pc)) => {
                let st = sts.last();
                let table = if has_label(st) {
                    table.push((label_name(st[0]), (pc % 0x10000) as u16))
                } else {
                    table
                };
                if !has_instruction(st) {
                    Ok((table, pc))
                } else {
                    match mnemonic_opcode(st[mnemonic_index(st)]) {
                        None => Err(AssemblyError::UnknownMnemonic),
                        Some(op) => Ok((table, pc + opcode_len(op))),
                    }
                }
            },
        }
    }
}

/// The number of operands an instruction takes.
pub open spec fn arity(op: u8) -> nat {
    if op == 0xFF {
        0
    } else if op == 0x08 || op == 0x09 || op == 0x0A {
        1
    } else {
        2
    }
}

/// Both results, or the first error.
pub open spec fn both<A, B>(a: Result<A, AssemblyError>, b: Result<B, AssemblyError>) -> Result<(A, B), AssemblyError> {
    match a {
        Err(e) => Err(e),
        Ok(x) => match b {
            Err(e) => Err(e),
            Ok(y) => Ok((x, y)),
        },
    }
}

/// A jump target: a number, else a label of the table.
pub open spec fn target_spec(tok: Seq<char>, table: LabelTable) -> Result<u16, AssemblyError> {
    match number_spec(tok) {
        Ok(v) => Ok(v),
        Err(_) => match lookup(table, tok) {
            Some(a) => Ok(a),
            None => Err(AssemblyError::UndefinedLabel),
        },
    }
}

/// The instruction with opcode `op` and operand tokens `ops`.
pub open spec fn instruction_spec(op: u8, ops: Words, table: LabelTable) -> Result<Instruction, AssemblyError> {
    if ops.len() != arity(op) {
        Err(AssemblyError::WrongOperandCount)
    } else if op == 0x01 {
        match both(register_spec(ops[0]), number_spec(ops[1])) {
            Err(e) => Err(e),
            Ok((reg, imm)) => Ok(Instruction::MovImm { reg, imm }),
        }
    } else if op == 0x03 {
        match both(register_spec(ops[0]), number_spec(ops[1])) {
            Err(e) => Err(e),
            Ok((reg, addr)) => Ok(Instruction::Load { reg, addr }),
        }
    } else if op == 0x04 {
        match both(number_spec(ops[0]), register_spec(ops[1])) {
            Err(e) => Err(e),
            Ok((addr, reg)) => Ok(Instruction::Store { addr, reg }),
        }
    } else if op == 0x02 || op == 0x05 || op == 0x06 || op == 0x07 {
        match both(register_spec(ops[0]), register_spec(ops[1])) {
            Err(e) => Err(e),
            Ok((a, b)) => Ok(
                if op == 0x02 {
                    Instruction::Mov { dest_reg: a, src_reg: b }
                } else if op == 0x05 {
                    Instruction::Add { dest_reg: a, src_reg: b }
                } else if op == 0x06 {
                    Instruction::Sub { dest_reg: a, src_reg: b }
                } else {
                    Instruction::Compare { reg_1: a, reg_2: b }
                },
            ),
        }
    } else if op == 0x08 || op == 0x09 || op == 0x0A {
        match target_spec(ops[0], table) {
            Err(e) => Err(e),
            Ok(addr) => Ok(
                if op == 0x08 {
                    Instruction::Jump { addr }
                } else if op == 0x09 {
                    Instruction::JumpZ { addr }
                } else {
                    Instruction::JumpNZ { addr }
                },
            ),
        }
    } else {
        Ok(Instruction::Halt)
    }
}

/// The bytecode of one statement: empty for a label alone.
pub open spec fn statement_code(st: Words, table: LabelTable) -> Result<Seq<u8>, AssemblyError> {
    if !has_instruction(st) {
        Ok(seq![])
    } else {
        match mnemonic_opcode(st[mnemonic_index(st)]) {
            None => Err(AssemblyError::UnknownMnemonic),
            Some(op) => match instruction_spec(op, st.skip(mnemonic_index(st) + 1), table) {
                Err(e) => Err(e),
                Ok(i) => Ok(encode(i)),
            },
        }
    }
}

/// The second pass: the bytecode of all statements in order, or the first
/// error.
pub open spec fn pass_two(sts: Seq<Words>, table: LabelTable) -> Result<Seq<u8>, AssemblyError>
    decreases sts.len(),
{
    if sts.len() == 0 {
        Ok(seq![])
    } else {
        match pass_two(sts.drop_last(), table) {
            Err(e) => Err(e),
            Ok(code) => match statement_code(sts.last(), table) {
                Err(e) => Err(e),
                Ok(more) => Ok(code + more),
            },
        }
    }
}

/// What a source text assembles to.
pub open spec fn assemble_spec(src: Seq<char>) -> Result<Seq<u8>, AssemblyError> {
    match pass_one(statements(src)) {
        Err(e) => Err(e),
        Ok((table, _)) => pass_two(statements(src), table),
    }
}


/// The label a token declares, without its trailing colons.
fn label_name_exec(tok: &Vec<char>) -> (r: Vec<char>)
    ensures
        r@ == label_name(tok@),
{
    let mut end: usize = tok.len();
    assert(tok@.take(end as int) =~= tok@);
    while end > 0 && tok[end - 1] == ':'
        invariant
            end <= tok@.len(),
            label_name(tok@.take(end as int)) == label_name(tok@),
        decreases end,
    {
        assert(tok@.take(end - 1) =~= tok@.take(end as int).drop_last());
        end = end - 1;
    }
    let mut r: Vec<char> = Vec::new();
    let mut i: usize = 0;
    while i < end
        invariant
            end <= tok@.len(),
            i <= end,
            r@ == tok@.take(i as int),
        decreases end - i,
    {
        r.push(tok[i]);
        assert(r@ =~= tok@.take(i + 1));
        i = i + 1;
    }
    r
}

fn same_chars(a: &Vec<char>, b: &Vec<char>) -> (r: bool)
    ensures
        r == (a@ == b@),
{
    if a.len() != b.len() {
        return false;
    }
    let mut i: usize = 0;
    while i < a.len()
        invariant
            a@.len() == b@.len(),
            i <= a@.len(),
            a@.take(i as int) == b@.take(i as int),
        decreases a@.len() - i,
    {
        if a[i] != b[i] {
            return false;
        }
        assert(a@.take(i + 1) =~= a@.take(i as int).push(a@[i as int]));
        assert(b@.take(i + 1) =~= b@.take(i as int).push(b@[i as int]));
        i = i + 1;
    }
    assert(a@ =~= a@.take(i as int));
    assert(b@ =~= b@.take(i as int));
    true
}

/// The address of a label in the table, its latest declaration winning.
fn lookup_label(table: &Vec<(Vec<char>, u16)>, name: &Vec<char>) -> (r: Option<u16>)
    ensures
        r == lookup(table.deep_view(), name@),
{
    broadcast use lemma_chars_deep_view;
    let ghost t = table.deep_view();
    let mut n: usize = table.len();
    assert(t.take(n as int) =~= t);
    while n > 0
        invariant
            n <= table@.len(),
            t == table.deep_view(),
            lookup(t.take(n as int), name@) == lookup(t, name@),
        decreases n,
    {
        assert(t.take(n as int).drop_last() =~= t.take(n - 1));
        assert(t[n - 1].0 == table@[n - 1].0@);
        if same_chars(&table[n - 1].0, name) {
            return Some(table[n - 1].1);
        }
        n = n - 1;
    }
    None
}

/// Appends the bytecode of an instruction.
fn emit(code: &mut Vec<u8>, i: Instruction)
    ensures
        final(code)@ == old(code)@ + encode(i),
{
    let ghost start = code@;
    match i {
        Instruction::MovImm { reg, imm } => {
            code.push(0x01);
            code.push(reg);
            code.push((imm / 256) as u8);
            code.push((imm % 256) as u8);
        },
        Instruction::Mov { src_reg, dest_reg } => {
            code.push(0x02);
            code.push(dest_reg);
            code.push(src_reg);
        },
        Instruction::Load { reg, addr } => {
            code.push(0x03);
            code.push(reg);
            code.push((addr / 256) as u8);
            code.push((addr % 256) as u8);
        },
        Instruction::Store { addr, reg } => {
            code.push(0x04);
            code.push((addr / 256) as u8);
            code.push((addr % 256) as u8);
            code.push(reg);
        },
        Instruction::Add { dest_reg, src_reg } => {
            code.push(0x05);
            code.push(dest_reg);
            code.push(src_reg);
        },
        Instruction::Sub { dest_reg, src_reg } => {
            code.push(0x06);
            code.push(dest_reg);
            code.push(src_reg);
        },
        Instruction::Compare { reg_1, reg_2 } => {
            code.push(0x07);
            code.push(reg_1);
            code.push(reg_2);
        },
        Instruction::Jump { addr } => {
            code.push(0x08);
            code.push((addr / 256) as u8);
            code.push((addr % 256) as u8);
        },
        Instruction::JumpZ { addr } => {
            code.push(0x09);
            code.push((addr / 256) as u8);
            code.push((addr % 256) as u8);
        },
        Instruction::JumpNZ { addr } => {
            code.push(0x0A);
            code.push((addr / 256) as u8);
            code.push((addr % 256) as u8);
        },
        Instruction::Halt => {
            code.push(0xFF);
        },
    }
    assert(code@ =~= start + encode(i));
}

/// A jump target: a number, else a label of the table.
fn parse_target(tok: &Vec<char>, table: &Vec<(Vec<char>, u16)>) -> (r: Result<u16, AssemblyError>)
    ensures
        r == target_spec(tok@, table.deep_view()),
{
    match parse_u16(tok) {
        Ok(v) => Ok(v),
        Err(_) => match lookup_label(table, tok) {
            Some(a) => Ok(a),
            None => Err(AssemblyError::UndefinedLabel),
        },
    }
}

/// The instruction with opcode `op` whose operands are the tokens of `st`
/// after index `at`.
fn build_instruction(op: u8, st: &Vec<Vec<char>>, at: usize, table: &Vec<(Vec<char>, u16)>) -> (r: Result<Instruction, AssemblyError>)
    requires
        at <= st@.len(),
        is_opcode(op),
    ensures
        r == instruction_spec(op, st.deep_view().skip(at as int), table.deep_view()),
{
    broadcast use lemma_chars_deep_view;
    let ghost ops = st.deep_view().skip(at as int);
    let n = st.len() - at;
    let want: usize = if op == 0xFF { 0 } else if op == 0x08 || op == 0x09 || op == 0x0A { 1 } else { 2 };
    if n != want {
        return Err(AssemblyError::WrongOperandCount);
    }
    if op == 0xFF {
        return Ok(Instruction::Halt);
    }
    assert(ops[0] == st@[at as int]@);
    if op == 0x08 || op == 0x09 || op == 0x0A {
        let addr = match parse_target(&st[at], table) {
            Ok(a) => a,
            Err(e) => return Err(e),
        };
        return Ok(
            if op == 0x08 {
                Instruction::Jump { addr }
            } else if op == 0x09 {
                Instruction::JumpZ { addr }
            } else {
                Instruction::JumpNZ { addr }
            },
        );
    }
    assert(ops[1] == st@[at + 1]@);
    if op == 0x04 {
        let addr = match parse_u16(&st[at]) {
            Ok(a) => a,
            Err(e) => return Err(e),
        };
        let reg = match parse_register(&st[at + 1]) {
            Ok(r) => r,
            Err(e) => return Err(e),
        };
        return Ok(Instruction::Store { addr, reg });
    }
    let a = match parse_register(&st[at]) {
        Ok(r) => r,
        Err(e) => return Err(e),
    };
    if op == 0x01 || op == 0x03 {
        let v = match parse_u16(&st[at + 1]) {
            Ok(v) => v,
            Err(e) => return Err(e),
        };
        return Ok(if op == 0x01 { Instruction::MovImm { reg: a, imm: v } } else { Instruction::Load { reg: a, addr: v } });
    }
    let b = match parse_register(&st[at + 1]) {
        Ok(r) => r,
        Err(e) => return Err(e),
    };
    Ok(
        if op == 0x02 {
            Instruction::Mov { dest_reg: a, src_reg: b }
        } else if op == 0x05 {
            Instruction::Add { dest_reg: a, src_reg: b }
        } else if op == 0x06 {
            Instruction::Sub { dest_reg: a, src_reg: b }
        } else {
            Instruction::Compare { reg_1: a, reg_2: b }
        },
    )
}


pub(crate) proof fn lemma_pass_one_error(sts: Seq<Words>, j: int)
    requires
        0 <= j <= sts.len(),
        pass_one(sts.take(j)) is Err,
    ensures
        pass_one(sts) == pass_one(sts.take(j)),
    decreases sts.len(),
{
    if j == sts.len() {
        assert(sts.take(j) =~= sts);
    } else {
        assert(sts.drop_last().take(j) =~= sts.take(j));
        lemma_pass_one_error(sts.drop_last(), j);
    }
}

pub(crate) proof fn lemma_pass_two_error(sts: Seq<Words>, t: LabelTable, j: int)
    requires
        0 <= j <= sts.len(),
        pass_two(sts.take(j), t) is Err,
    ensures
        pass_two(sts, t) == pass_two(sts.take(j), t),
    decreases sts.len(),
{
    if j == sts.len() {
        assert(sts.take(j) =~= sts);
    } else {
        assert(sts.drop_last().take(j) =~= sts.take(j));
        lemma_pass_two_error(sts.drop_last(), t, j);
    }
}

/// Whether a statement starts with a label, on its tokens.
fn starts_with_label(st: &Vec<Vec<char>>) -> (r: bool)
    ensures
        r == has_label(st.deep_view()),
{
    broadcast use lemma_chars_deep_view;
    if st.len() == 0 {
        return false;
    }
    assert(st.deep_view()[0] == st@[0]@);
    let first = &st[0];
    first.len() > 0 && first[first.len() - 1] == ':'
}

/// The first pass: the label table of the statements.
fn first_pass(sts: &Vec<Vec<Vec<char>>>) -> (r: Result<Vec<(Vec<char>, u16)>, AssemblyError>)
    ensures
        match r {
            Ok(t) => pass_one(sts.deep_view()) is Ok && t.deep_view() == pass_one(sts.deep_view())->Ok_0.0,
            Err(e) => pass_one(sts.deep_view()) == Err::<(LabelTable, nat), AssemblyError>(e),
        },
{
    broadcast use lemma_chars_deep_view;
    let ghost all = sts.deep_view();
    let mut labels: Vec<(Vec<char>, u16)> = Vec::new();
    assert(labels.deep_view() =~= seq![]);
    let mut pc: u16 = 0;
    let ghost mut total: nat = 0;
    let mut k: usize = 0;
    assert(all.take(0) =~= seq![]);
    while k < sts.len()
        invariant
            k <= sts@.len(),
            all == sts.deep_view(),
            pass_one(all.take(k as int)) == Ok::<(LabelTable, nat), AssemblyError>((labels.deep_view(), total)),
            pc == total % 0x10000,
        decreases sts@.len() - k,
    {
        let st = &sts[k];
        assert(all.take(k + 1).drop_last() =~= all.take(k as int));
        assert(all.take(k + 1).last() == st.deep_view());
        let mut at: usize = 0;
        if starts_with_label(st) {
            let name = label_name_exec(&st[0]);
            assert(st.deep_view()[0] == st@[0]@);
            let ghost prev = labels.deep_view();
            let ghost entry = (name@, pc);
            assert((name, pc).deep_view() == entry);
            labels.push((name, pc));
            assert(labels.deep_view() =~= prev.push(entry));
            at = 1;
        }
        if at < st.len() {
            assert(st.deep_view()[at as int] == st@[at as int]@);
            match find_instr_length(&st[at]) {
                Ok(len) => {
                    pc = ((pc as u32 + len as u32) % 0x10000) as u16;
                    proof {
                        total = total + len as nat;
                    }
                },
                Err(e) => {
                    proof {
                        lemma_pass_one_error(all, k + 1);
                    }
                    return Err(e);
                },
            }
        }
        k = k + 1;
    }
    assert(all.take(k as int) =~= all);
    Ok(labels)
}

/// The second pass: the bytecode of the statements, with labels resolved
/// through the table.
fn second_pass(sts: &Vec<Vec<Vec<char>>>, table: &Vec<(Vec<char>, u16)>) -> (r: Result<Vec<u8>, AssemblyError>)
    ensures
        match r {
            Ok(code) => pass_two(sts.deep_view(), table.deep_view()) == Ok::<Seq<u8>, AssemblyError>(code@),
            Err(e) => pass_two(sts.deep_view(), table.deep_view()) == Err::<Seq<u8>, AssemblyError>(e),
        },
{
    broadcast use lemma_chars_deep_view;
    let ghost all = sts.deep_view();
    let ghost t = table.deep_view();
    let mut code: Vec<u8> = Vec::new();
    let mut k: usize = 0;
    assert(all.take(0) =~= seq![]);
    while k < sts.len()
        invariant
            k <= sts@.len(),
            all == sts.deep_view(),
            t == table.deep_view(),
            pass_two(all.take(k as int), t) == Ok::<Seq<u8>, AssemblyError>(code@),
        decreases sts@.len() - k,
    {
        let st = &sts[k];
        assert(all.take(k + 1).drop_last() =~= all.take(k as int));
        assert(all.take(k + 1).last() == st.deep_view());
        let at: usize = if starts_with_label(st) { 1 } else { 0 };
        if at < st.len() {
            assert(st.deep_view()[at as int] == st@[at as int]@);
            match mnemonic_code(&st[at]) {
                None => {
                    proof {
                        lemma_pass_two_error(all, t, k + 1);
                    }
                    return Err(AssemblyError::UnknownMnemonic);
                },
                Some(op) => match build_instruction(op, st, at + 1, table) {
                    Err(e) => {
                        proof {
                            lemma_pass_two_error(all, t, k + 1);
                        }
                        return Err(e);
                    },
                    Ok(i) => emit(&mut code, i),
                },
            }
        } else {
            assert(code@ + seq![] =~= code@);
        }
        k = k + 1;
    }
    assert(all.take(k as int) =~= all);
    Ok(code)
}

/// Assembles a source text into bytecode, in two passes: the first gives
/// each label the address of its statement's code, the second emits each
/// instruction. Any error fails the whole text.
pub fn assemble(src: &str) -> (r: Result<Vec<u8>, AssemblyError>)
    ensures
        match r {
            Ok(code) => assemble_spec(src@) == Ok::<Seq<u8>, AssemblyError>(code@),
            Err(e) => assemble_spec(src@) == Err::<Seq<u8>, AssemblyError>(e),
        },
{
    let sts = tokenize(src);
    let table = match first_pass(&sts) {
        Ok(t) => t,
        Err(e) => return Err(e),
    };
    second_pass(&sts, &table)
}

} // verus!
