use vstd::prelude::*;
use crate::assembler::{
    AssemblyError, LabelTable, assemble_spec, digit_value, folded, has_hex_prefix, is_numeral,
    instruction_spec, mnemonic, mnemonic_opcode, number_spec, numeral_value, pass_one, pass_two, register_spec,
    spells, unsigned_digits,
};
use crate::decoder::{decode_spec, lemma_decode_encode};
use crate::instructions::{Instruction, encode, is_opcode, opcode_len, opcode_of, lemma_encode_shape};
use crate::lexer::{
    Words, code_part, comment_start, is_space, line_split, lines, statements, statements_of,
    word_split, words,
};

verus! {

/// The digit characters of bases up to 16, by value.
pub open spec fn digit_chars() -> Seq<char> {
    seq!['0', '1', '2', '3', '4', '5', '6', '7', '8', '9', 'a', 'b', 'c', 'd', 'e', 'f']
}

/// The numeral of `n` in base `radix` (10 or 16), most significant digit
/// first, with no leading zeros.
pub open spec fn numeral(n: nat, radix: nat) -> Seq<char>
    decreases n,
{
    if radix != 10 && radix != 16 || n < radix {
        seq![digit_chars()[(n % 16) as int]]
    } else if radix == 10 {
        numeral(n / 10, radix).push(digit_chars()[(n % 10) as int])
    } else {
        numeral(n / 16, radix).push(digit_chars()[(n % 16) as int])
    }
}

proof fn lemma_digit_chars(d: int)
    requires
        0 <= d < 16,
    ensures
        digit_value(digit_chars()[d]) == d,
{
    let c = digit_chars()[d];
    if d == 0 { assert(c == '0'); } else if d == 1 { assert(c == '1'); } else if d == 2 { assert(c == '2'); }
    else if d == 3 { assert(c == '3'); } else if d == 4 { assert(c == '4'); } else if d == 5 { assert(c == '5'); }
    else if d == 6 { assert(c == '6'); } else if d == 7 { assert(c == '7'); } else if d == 8 { assert(c == '8'); }
    else if d == 9 { assert(c == '9'); } else if d == 10 { assert(c == 'a'); } else if d == 11 { assert(c == 'b'); }
    else if d == 12 { assert(c == 'c'); } else if d == 13 { assert(c == 'd'); } else if d == 14 { assert(c == 'e'); }
    else { assert(c == 'f'); }
}

/// A numeral reads back as its number, and all its characters are digits.
pub proof fn lemma_numeral(n: nat, radix: nat)
    requires
        radix == 10 || radix == 16,
    ensures
        is_numeral(numeral(n, radix), radix),
        numeral_value(numeral(n, radix), radix) == n,
    decreases n,
{
    let s = numeral(n, radix);
    if n < radix {
        lemma_digit_chars(n as int);
        assert(s.drop_last() =~= seq![]);
        assert(numeral_value(s.drop_last(), radix) == 0);
        assert(0 * radix == 0);
    } else {
        lemma_numeral(n / radix, radix);
        lemma_digit_chars((n % radix) as int);
        assert(s.drop_last() =~= numeral(n / radix, radix));
        assert(n == (n / radix) * radix + n % radix) by (nonlinear_arith)
            requires radix > 0;
        assert forall|i: int| 0 <= i < s.len() implies #[trigger] digit_value(s[i]) < radix by {
            if i < s.len() - 1 {
                assert(s[i] == numeral(n / radix, radix)[i]);
            }
        }
    }
}

/// The register operand token of register `r`.
pub open spec fn register_token(r: nat) -> Seq<char> {
    seq!['r'] + numeral(r, 10)
}

/// The hexadecimal operand token of `n`.
pub open spec fn hex_token(n: nat) -> Seq<char> {
    seq!['0', 'x'] + numeral(n, 16)
}

/// `r0` to `r15` name registers 0 to 15, `r16` and beyond name none, and a
/// token that does not start with `r` names none.
pub proof fn lemma_register_tokens(n: nat, tok: Seq<char>)
    ensures
        n < 16 ==> register_spec(register_token(n)) == Ok::<u8, AssemblyError>(n as u8),
        n >= 16 ==> register_spec(register_token(n)) == Err::<u8, AssemblyError>(
            AssemblyError::RegisterOutOfRange,
        ),
        tok.len() == 0 || tok[0] != 'r' ==> register_spec(tok) == Err::<u8, AssemblyError>(
            AssemblyError::MalformedRegister,
        ),
{
    lemma_numeral(n, 10);
    let t = register_token(n);
    assert(t.drop_first() =~= numeral(n, 10));
    assert(digit_value(numeral(n, 10)[0]) < 10);
}

/// Decimal numerals and `0x` hexadecimal numerals read as their number up
/// to 0xFFFF, and as out of range above it.
pub proof fn lemma_number_tokens(n: nat)
    ensures
        n <= 0xFFFF ==> number_spec(numeral(n, 10)) == Ok::<u16, AssemblyError>(n as u16),
        n <= 0xFFFF ==> number_spec(hex_token(n)) == Ok::<u16, AssemblyError>(n as u16),
        n > 0xFFFF ==> number_spec(numeral(n, 10)) == Err::<u16, AssemblyError>(
            AssemblyError::NumberOutOfRange,
        ),
        n > 0xFFFF ==> number_spec(hex_token(n)) == Err::<u16, AssemblyError>(
            AssemblyError::NumberOutOfRange,
        ),
{
    lemma_numeral(n, 10);
    lemma_numeral(n, 16);
    let d = numeral(n, 10);
    assert(digit_value(d[0]) < 10);
    if d.len() >= 2 {
        assert(digit_value(d[1]) < 10);
    }
    assert(!has_hex_prefix(d));
    assert(unsigned_digits(d) == d);
    let h = hex_token(n);
    assert(h.skip(2) =~= numeral(n, 16));
    assert(digit_value(numeral(n, 16)[0]) < 16);
}


/// A character of a word of instruction text: a digit of base 16 or an
/// ASCII lower case letter.
pub open spec fn plain_char(c: char) -> bool {
    digit_value(c) < 16 || (0x61 <= c as u32 && c as u32 <= 0x7A)
}

/// Whether a word is made of plain characters only, and not empty.
pub open spec fn plain_word(w: Seq<char>) -> bool {
    w.len() > 0 && forall|i: int| 0 <= i < w.len() ==> #[trigger] plain_char(w[i])
}

/// Words separated by single spaces.
pub open spec fn joined(ws: Words) -> Seq<char>
    decreases ws.len(),
{
    if ws.len() == 0 {
        seq![]
    } else if ws.len() == 1 {
        ws[0]
    } else {
        joined(ws.drop_last()) + seq![' '] + ws.last()
    }
}

/// The words of the assembly text of an instruction: its mnemonic, then its
/// operands, registers as `r` and a decimal number, other numbers in `0x`
/// hexadecimal.
pub open spec fn instruction_words(i: Instruction) -> Words {
    match i {
        Instruction::MovImm { reg, imm } => seq![mnemonic(0x01), register_token(reg as nat), hex_token(imm as nat)],
        Instruction::Mov { src_reg, dest_reg } => seq![mnemonic(0x02), register_token(dest_reg as nat), register_token(src_reg as nat)],
        Instruction::Load { reg, addr } => seq![mnemonic(0x03), register_token(reg as nat), hex_token(addr as nat)],
        Instruction::Store { addr, reg } => seq![mnemonic(0x04), hex_token(addr as nat), register_token(reg as nat)],
        Instruction::Add { dest_reg, src_reg } => seq![mnemonic(0x05), register_token(dest_reg as nat), register_token(src_reg as nat)],
        Instruction::Sub { dest_reg, src_reg } => seq![mnemonic(0x06), register_token(dest_reg as nat), register_token(src_reg as nat)],
        Instruction::Compare { reg_1, reg_2 } => seq![mnemonic(0x07), register_token(reg_1 as nat), register_token(reg_2 as nat)],
        Instruction::Jump { addr } => seq![mnemonic(0x08), hex_token(addr as nat)],
        Instruction::JumpZ { addr } => seq![mnemonic(0x09), hex_token(addr as nat)],
        Instruction::JumpNZ { addr } => seq![mnemonic(0x0A), hex_token(addr as nat)],
        Instruction::Halt => seq![mnemonic(0xFF)],
    }
}

/// The assembly text of an instruction, as one line.
pub open spec fn instruction_text(i: Instruction) -> Seq<char> {
    joined(instruction_words(i))
}

/// Whether every register an instruction names is one of the sixteen.
pub open spec fn registers_in_range(i: Instruction) -> bool {
    match i {
        Instruction::MovImm { reg, .. } => reg < 16,
        Instruction::Mov { src_reg, dest_reg } => src_reg < 16 && dest_reg < 16,
        Instruction::Load { reg, .. } => reg < 16,
        Instruction::Store { reg, .. } => reg < 16,
        Instruction::Add { dest_reg, src_reg } => src_reg < 16 && dest_reg < 16,
        Instruction::Sub { dest_reg, src_reg } => src_reg < 16 && dest_reg < 16,
        Instruction::Compare { reg_1, reg_2 } => reg_1 < 16 && reg_2 < 16,
        _ => true,
    }
}

proof fn lemma_mnemonic_plain(op: u8)
    ensures
        plain_word(mnemonic(op)),
        mnemonic(op).last() != ':',
        forall|i: int| 0 <= i < mnemonic(op).len() ==> #[trigger] folded(mnemonic(op)[i]) == mnemonic(op)[i] as u32,
{
}

proof fn lemma_mnemonic_opcode(op: u8)
    requires
        is_opcode(op),
    ensures
        mnemonic_opcode(mnemonic(op)) == Some(op),
{
    lemma_mnemonic_plain(op);
    let m = mnemonic(op);
    assert(spells(m, m));
    assert(folded(m[0]) == m[0] as u32);
}

proof fn lemma_numeral_plain(n: nat, radix: nat)
    requires
        radix == 10 || radix == 16,
    ensures
        plain_word(numeral(n, radix)),
{
    lemma_numeral(n, radix);
    let s = numeral(n, radix);
    assert forall|i: int| 0 <= i < s.len() implies #[trigger] plain_char(s[i]) by {
        assert(digit_value(s[i]) < radix);
    }
}

proof fn lemma_tokens_plain(n: nat)
    ensures
        plain_word(register_token(n)),
        plain_word(hex_token(n)),
{
    lemma_numeral_plain(n, 10);
    lemma_numeral_plain(n, 16);
    let r = register_token(n);
    assert forall|i: int| 0 <= i < r.len() implies #[trigger] plain_char(r[i]) by {
        if i > 0 {
            assert(r[i] == numeral(n, 10)[i - 1]);
        }
    }
    let h = hex_token(n);
    assert forall|i: int| 0 <= i < h.len() implies #[trigger] plain_char(h[i]) by {
        if i > 1 {
            assert(h[i] == numeral(n, 16)[i - 2]);
        }
    }
}

proof fn lemma_plain_char(c: char)
    requires
        plain_char(c),
    ensures
        !is_space(c),
        c != '/',
        c != ':',
{
}

proof fn lemma_joined_chars(ws: Words)
    requires
        forall|k: int| 0 <= k < ws.len() ==> #[trigger] plain_word(ws[k]),
    ensures
        forall|j: int| 0 <= j < joined(ws).len() ==> plain_char(#[trigger] joined(ws)[j]) || joined(ws)[j] == ' ',
    decreases ws.len(),
{
    if ws.len() > 1 {
        let prev = ws.drop_last();
        assert forall|k: int| 0 <= k < prev.len() implies #[trigger] plain_word(prev[k]) by {
            assert(prev[k] == ws[k]);
        }
        lemma_joined_chars(prev);
        let t = joined(ws);
        let a = joined(prev);
        let w = ws.last();
        assert(plain_word(ws[ws.len() - 1]));
        assert forall|j: int| 0 <= j < t.len() implies plain_char(#[trigger] t[j]) || t[j] == ' ' by {
            if j < a.len() {
                assert(t[j] == a[j]);
            } else if j > a.len() {
                assert(t[j] == w[j - a.len() - 1]);
            }
        }
    } else if ws.len() == 1 {
        assert(plain_word(ws[0]));
    }
}

proof fn lemma_lines_single(s: Seq<char>)
    requires
        forall|j: int| 0 <= j < s.len() ==> #[trigger] s[j] != '\n',
    ensures
        line_split(s) == (Seq::<Seq<char>>::empty(), s),
    decreases s.len(),
{
    if s.len() > 0 {
        lemma_lines_single(s.drop_last());
        assert(s.drop_last().push(s.last()) =~= s);
    }
}

proof fn lemma_no_comment(s: Seq<char>, i: int)
    requires
        0 <= i,
        forall|j: int| 0 <= j < s.len() ==> #[trigger] s[j] != '/',
    ensures
        comment_start(s, i) == s.len(),
    decreases s.len() - i,
{
    if i + 1 < s.len() {
        lemma_no_comment(s, i + 1);
    }
}

proof fn lemma_word_split_word(s: Seq<char>, w: Seq<char>)
    requires
        word_split(s).1.len() == 0,
        forall|j: int| 0 <= j < w.len() ==> !is_space(#[trigger] w[j]),
    ensures
        word_split(s + w) == (word_split(s).0, w),
    decreases w.len(),
{
    if w.len() == 0 {
        assert(s + w =~= s);
    } else {
        lemma_word_split_word(s, w.drop_last());
        assert((s + w).drop_last() =~= s + w.drop_last());
        assert(w.drop_last().push(w.last()) =~= w);
    }
}

proof fn lemma_words_joined(ws: Words)
    requires
        ws.len() > 0,
        forall|k: int| 0 <= k < ws.len() ==> #[trigger] plain_word(ws[k]),
    ensures
        word_split(joined(ws)) == (ws.drop_last(), ws.last()),
    decreases ws.len(),
{
    let w = ws.last();
    assert(plain_word(ws[ws.len() - 1]));
    assert forall|j: int| 0 <= j < w.len() implies !is_space(#[trigger] w[j]) by {
        lemma_plain_char(w[j]);
    }
    if ws.len() == 1 {
        assert(word_split(seq![]) == (Seq::<Seq<char>>::empty(), Seq::<char>::empty()));
        lemma_word_split_word(seq![], w);
        assert(Seq::<char>::empty() + w =~= w);
        assert(ws.drop_last() =~= seq![]);
    } else {
        let prev = ws.drop_last();
        assert forall|k: int| 0 <= k < prev.len() implies #[trigger] plain_word(prev[k]) by {
            assert(prev[k] == ws[k]);
        }
        lemma_words_joined(prev);
        let a = joined(prev) + seq![' '];
        assert(a.drop_last() =~= joined(prev));
        assert(plain_word(prev[prev.len() - 1]));
        assert(prev.drop_last().push(prev.last()) =~= prev);
        lemma_word_split_word(a, w);
    }
}

/// The statements of the text of a line of plain words are those words.
proof fn lemma_statements_joined(ws: Words)
    requires
        ws.len() > 0,
        forall|k: int| 0 <= k < ws.len() ==> #[trigger] plain_word(ws[k]),
    ensures
        statements(joined(ws)) == seq![ws],
{
    let t = joined(ws);
    lemma_joined_chars(ws);
    assert forall|j: int| 0 <= j < t.len() implies #[trigger] t[j] != '\n' && t[j] != '/' by {
        if t[j] != ' ' {
            lemma_plain_char(t[j]);
        }
    }
    lemma_lines_single(t);
    assert(lines(t) =~= seq![t]);
    lemma_no_comment(t, 0);
    assert(code_part(t) =~= t);
    lemma_words_joined(ws);
    assert(ws.drop_last().push(ws.last()) =~= ws);
    assert(plain_word(ws[ws.len() - 1]));
    assert(words(t) == ws);
    assert(words(code_part(t)) == ws);
    let ls = lines(t);
    assert(ls =~= seq![t]);
    assert(ls.drop_last() =~= Seq::<Seq<char>>::empty());
    assert(statements_of(Seq::<Seq<char>>::empty()) == Seq::<Words>::empty());
    assert(statements_of(ls) =~= seq![ws]);
}

proof fn lemma_words_plain(i: Instruction)
    ensures
        forall|k: int| 0 <= k < instruction_words(i).len() ==> #[trigger] plain_word(instruction_words(i)[k]),
        instruction_words(i)[0] == mnemonic(opcode_of(i)),
{
    let ws = instruction_words(i);
    lemma_mnemonic_plain(opcode_of(i));
    match i {
        Instruction::MovImm { reg, imm } => { lemma_tokens_plain(reg as nat); lemma_tokens_plain(imm as nat); },
        Instruction::Mov { src_reg, dest_reg } => { lemma_tokens_plain(src_reg as nat); lemma_tokens_plain(dest_reg as nat); },
        Instruction::Load { reg, addr } => { lemma_tokens_plain(reg as nat); lemma_tokens_plain(addr as nat); },
        Instruction::Store { addr, reg } => { lemma_tokens_plain(reg as nat); lemma_tokens_plain(addr as nat); },
        Instruction::Add { dest_reg, src_reg } => { lemma_tokens_plain(src_reg as nat); lemma_tokens_plain(dest_reg as nat); },
        Instruction::Sub { dest_reg, src_reg } => { lemma_tokens_plain(src_reg as nat); lemma_tokens_plain(dest_reg as nat); },
        Instruction::Compare { reg_1, reg_2 } => { lemma_tokens_plain(reg_1 as nat); lemma_tokens_plain(reg_2 as nat); },
        Instruction::Jump { addr } => { lemma_tokens_plain(addr as nat); },
        Instruction::JumpZ { addr } => { lemma_tokens_plain(addr as nat); },
        Instruction::JumpNZ { addr } => { lemma_tokens_plain(addr as nat); },
        Instruction::Halt => {},
    }
    assert forall|k: int| 0 <= k < ws.len() implies #[trigger] plain_word(ws[k]) by {}
}

proof fn lemma_register_pair(a: u8, b: u8)
    requires
        a < 16,
        b < 16,
    ensures
        crate::assembler::both(register_spec(register_token(a as nat)), register_spec(register_token(b as nat)))
            == Ok::<(u8, u8), AssemblyError>((a, b)),
{
    lemma_register_tokens(a as nat, seq![]);
    lemma_register_tokens(b as nat, seq![]);
}

proof fn lemma_operands_reg_reg(op: u8, a: u8, b: u8)
    requires
        op == 0x02 || op == 0x05 || op == 0x06 || op == 0x07,
        a < 16,
        b < 16,
    ensures
        instruction_spec(op, seq![register_token(a as nat), register_token(b as nat)], seq![])
            == Ok::<Instruction, AssemblyError>(
            if op == 0x02 {
                Instruction::Mov { dest_reg: a, src_reg: b }
            } else if op == 0x05 {
                Instruction::Add { dest_reg: a, src_reg: b }
            } else if op == 0x06 {
                Instruction::Sub { dest_reg: a, src_reg: b }
            } else {
                Instruction::Compare { reg_1: a, reg_2: b }
            },
        ),
{
    lemma_register_pair(a, b);
}

proof fn lemma_operands_reg_num(op: u8, a: u8, v: u16)
    requires
        op == 0x01 || op == 0x03,
        a < 16,
    ensures
        instruction_spec(op, seq![register_token(a as nat), hex_token(v as nat)], seq![])
            == Ok::<Instruction, AssemblyError>(
            if op == 0x01 {
                Instruction::MovImm { reg: a, imm: v }
            } else {
                Instruction::Load { reg: a, addr: v }
            },
        ),
{
    lemma_register_tokens(a as nat, seq![]);
    lemma_number_tokens(v as nat);
}

proof fn lemma_operands_num_reg(v: u16, a: u8)
    requires
        a < 16,
    ensures
        instruction_spec(0x04, seq![hex_token(v as nat), register_token(a as nat)], seq![])
            == Ok::<Instruction, AssemblyError>(Instruction::Store { addr: v, reg: a }),
{
    lemma_register_tokens(a as nat, seq![]);
    lemma_number_tokens(v as nat);
}

proof fn lemma_operands_target(op: u8, v: u16)
    requires
        op == 0x08 || op == 0x09 || op == 0x0A,
    ensures
        instruction_spec(op, seq![hex_token(v as nat)], seq![]) == Ok::<Instruction, AssemblyError>(
            if op == 0x08 {
                Instruction::Jump { addr: v }
            } else if op == 0x09 {
                Instruction::JumpZ { addr: v }
            } else {
                Instruction::JumpNZ { addr: v }
            },
        ),
{
    lemma_number_tokens(v as nat);
}

proof fn lemma_operands(i: Instruction)
    requires
        registers_in_range(i),
    ensures
        instruction_spec(opcode_of(i), instruction_words(i).skip(1), seq![]) == Ok::<Instruction, AssemblyError>(i),
{
    let ops = instruction_words(i).skip(1);
    match i {
        Instruction::MovImm { reg, imm } => {
            assert(ops =~= seq![register_token(reg as nat), hex_token(imm as nat)]);
            lemma_operands_reg_num(0x01, reg, imm);
        },
        Instruction::Mov { src_reg, dest_reg } => {
            assert(ops =~= seq![register_token(dest_reg as nat), register_token(src_reg as nat)]);
            lemma_operands_reg_reg(0x02, dest_reg, src_reg);
        },
        Instruction::Load { reg, addr } => {
            assert(ops =~= seq![register_token(reg as nat), hex_token(addr as nat)]);
            lemma_operands_reg_num(0x03, reg, addr);
        },
        Instruction::Store { addr, reg } => {
            assert(ops =~= seq![hex_token(addr as nat), register_token(reg as nat)]);
            lemma_operands_num_reg(addr, reg);
        },
        Instruction::Add { dest_reg, src_reg } => {
            assert(ops =~= seq![register_token(dest_reg as nat), register_token(src_reg as nat)]);
            lemma_operands_reg_reg(0x05, dest_reg, src_reg);
        },
        Instruction::Sub { dest_reg, src_reg } => {
            assert(ops =~= seq![register_token(dest_reg as nat), register_token(src_reg as nat)]);
            lemma_operands_reg_reg(0x06, dest_reg, src_reg);
        },
        Instruction::Compare { reg_1, reg_2 } => {
            assert(ops =~= seq![register_token(reg_1 as nat), register_token(reg_2 as nat)]);
            lemma_operands_reg_reg(0x07, reg_1, reg_2);
        },
        Instruction::Jump { addr } => {
            assert(ops =~= seq![hex_token(addr as nat)]);
            lemma_operands_target(0x08, addr);
        },
        Instruction::JumpZ { addr } => {
            assert(ops =~= seq![hex_token(addr as nat)]);
            lemma_operands_target(0x09, addr);
        },
        Instruction::JumpNZ { addr } => {
            assert(ops =~= seq![hex_token(addr as nat)]);
            lemma_operands_target(0x0A, addr);
        },
        Instruction::Halt => {
            assert(ops =~= Seq::<Seq<char>>::empty());
        },
    }
}

/// A source of one statement without a label assembles through both passes
/// to the bytecode of the statement's instruction.
proof fn lemma_single_statement(ws: Words, i: Instruction)
    requires
        ws.len() > 0,
        ws[0].len() > 0,
        ws[0].last() != ':',
        mnemonic_opcode(ws[0]) == Some(opcode_of(i)),
        instruction_spec(opcode_of(i), ws.skip(1), seq![]) == Ok::<Instruction, AssemblyError>(i),
    ensures
        pass_one(seq![ws]) == Ok::<(LabelTable, nat), AssemblyError>((seq![], opcode_len(opcode_of(i)))),
        pass_two(seq![ws], seq![]) == Ok::<Seq<u8>, AssemblyError>(encode(i)),
{
    let sts = seq![ws];
    assert(sts.drop_last() =~= Seq::<Words>::empty());
    assert(pass_one(Seq::<Words>::empty()) == Ok::<(LabelTable, nat), AssemblyError>((seq![], 0)));
    assert(pass_two(Seq::<Words>::empty(), seq![]) == Ok::<Seq<u8>, AssemblyError>(seq![]));
    assert(Seq::<u8>::empty() + encode(i) =~= encode(i));
}

proof fn lemma_text_assembles(i: Instruction)
    requires
        registers_in_range(i),
    ensures
        assemble_spec(instruction_text(i)) == Ok::<Seq<u8>, AssemblyError>(encode(i)),
{
    let ws = instruction_words(i);
    let op = opcode_of(i);
    lemma_encode_shape(i);
    lemma_mnemonic_plain(op);
    lemma_mnemonic_opcode(op);
    lemma_words_plain(i);
    lemma_operands(i);
    lemma_statements_joined(ws);
    lemma_single_statement(ws, i);
}

/// The text of an instruction assembles to the instruction's bytecode, and
/// that bytecode decodes back to the instruction with its encoded length.
pub proof fn lemma_assemble_then_decode(i: Instruction)
    requires
        registers_in_range(i),
    ensures
        assemble_spec(instruction_text(i)) == Ok::<Seq<u8>, AssemblyError>(encode(i)),
        decode_spec(encode(i), 0) == Ok::<(Instruction, nat), crate::decoder::DecodeError>(
            (i, opcode_len(opcode_of(i))),
        ),
{
    lemma_text_assembles(i);
    lemma_encode_shape(i);
    assert(encode(i).subrange(0, encode(i).len() as int) =~= encode(i));
    lemma_decode_encode(encode(i), 0, i);
}

} // verus!
