use vstd::prelude::*;
use crate::assembler::{
    AssemblyError, LabelTable, assemble_spec, has_instruction, has_label, instruction_spec,
    label_name, lookup, mnemonic_index, mnemonic_opcode, number_spec, pass_one, pass_two,
    statement_code, lemma_pass_one_error, lemma_pass_two_error,
};
use crate::decoder::{DecodeError, decode_spec, lemma_decode_encode};
use crate::instructions::{Instruction, encode, opcode_len, opcode_of, lemma_encode_shape};
use crate::lexer::{Words, statements};

verus! {

/// Whether statement `k` is the only one that declares its label.
pub open spec fn declared_once(sts: Seq<Words>, k: int) -> bool {
    forall|i: int|
        0 <= i < sts.len() && i != k && has_label(#[trigger] sts[i]) ==> label_name(sts[i][0]) != label_name(sts[k][0])
}

/// Whether a statement is a jump, conditional or not, whose one operand is `name`.
pub open spec fn jumps_to(st: Words, name: Seq<char>) -> bool {
    &&& has_instruction(st)
    &&& st.len() == mnemonic_index(st) + 2
    &&& st[mnemonic_index(st) + 1] == name
    &&& mnemonic_opcode(st[mnemonic_index(st)]) matches Some(op) && (op == 0x08 || op == 0x09 || op == 0x0A)
}

/// The jump with opcode `op` to `addr`.
pub open spec fn jump_with(op: u8, addr: u16) -> Instruction {
    if op == 0x08 {
        Instruction::Jump { addr }
    } else if op == 0x09 {
        Instruction::JumpZ { addr }
    } else {
        Instruction::JumpNZ { addr }
    }
}

/// The bytecode of the statements before statement `k`.
pub open spec fn code_before(sts: Seq<Words>, table: LabelTable, k: int) -> Seq<u8> {
    pass_two(sts.take(k), table)->Ok_0
}

proof fn lemma_pass_one_prefix(sts: Seq<Words>, i: int)
    requires
        0 <= i <= sts.len(),
        pass_one(sts) is Ok,
    ensures
        pass_one(sts.take(i)) is Ok,
{
    if pass_one(sts.take(i)) is Err {
        lemma_pass_one_error(sts, i);
    }
}

proof fn lemma_instruction_opcode(op: u8, ops: Words, table: LabelTable)
    requires
        instruction_spec(op, ops, table) is Ok,
        crate::instructions::is_opcode(op),
    ensures
        opcode_of(instruction_spec(op, ops, table)->Ok_0) == op,
{
}

/// The code of a statement is as long as the first pass counts it.
proof fn lemma_statement_length(st: Words, table: LabelTable)
    requires
        statement_code(st, table) is Ok,
    ensures
        statement_code(st, table)->Ok_0.len() == if has_instruction(st) {
            opcode_len(mnemonic_opcode(st[mnemonic_index(st)])->Some_0)
        } else {
            0
        },
{
    if has_instruction(st) {
        let op = mnemonic_opcode(st[mnemonic_index(st)])->Some_0;
        let ops = st.skip(mnemonic_index(st) + 1);
        lemma_instruction_opcode(op, ops, table);
        lemma_encode_shape(instruction_spec(op, ops, table)->Ok_0);
    }
}

proof fn lemma_pass_two_prefix(sts: Seq<Words>, table: LabelTable, i: int)
    requires
        0 <= i <= sts.len(),
        pass_two(sts, table) is Ok,
    ensures
        pass_two(sts.take(i), table) is Ok,
{
    if pass_two(sts.take(i), table) is Err {
        lemma_pass_two_error(sts, table, i);
    }
}

proof fn lemma_pass_two_step(sts: Seq<Words>, table: LabelTable, i: int)
    requires
        0 <= i < sts.len(),
        pass_two(sts, table) is Ok,
    ensures
        statement_code(sts[i], table) is Ok,
        code_before(sts, table, i + 1) == code_before(sts, table, i) + statement_code(sts[i], table)->Ok_0,
{
    lemma_pass_two_prefix(sts, table, i + 1);
    assert(sts.take(i + 1).drop_last() =~= sts.take(i));
    assert(sts.take(i + 1).last() == sts[i]);
}

/// The code of the statements before statement `i` begins the whole code.
proof fn lemma_code_prefix(sts: Seq<Words>, table: LabelTable, i: int)
    requires
        0 <= i <= sts.len(),
        pass_two(sts, table) is Ok,
    ensures
        code_before(sts, table, i).len() <= pass_two(sts, table)->Ok_0.len(),
        pass_two(sts, table)->Ok_0.take(code_before(sts, table, i).len() as int) == code_before(sts, table, i),
    decreases sts.len() - i,
{
    let all = pass_two(sts, table)->Ok_0;
    if i == sts.len() {
        assert(sts.take(i) =~= sts);
        assert(all.take(all.len() as int) =~= all);
    } else {
        lemma_code_prefix(sts, table, i + 1);
        lemma_pass_two_step(sts, table, i);
        let c = code_before(sts, table, i);
        let n = code_before(sts, table, i + 1);
        assert(all.take(c.len() as int) =~= n.take(c.len() as int));
        assert(n.take(c.len() as int) =~= c);
    }
}

/// The code of the statements before statement `i` is as long as the first
/// pass counts it.
proof fn lemma_code_length(sts: Seq<Words>, table: LabelTable, i: int)
    requires
        0 <= i <= sts.len(),
        pass_one(sts) is Ok,
        pass_two(sts, table) is Ok,
    ensures
        code_before(sts, table, i).len() == pass_one(sts.take(i))->Ok_0.1,
    decreases i,
{
    if i == 0 {
        assert(sts.take(0) =~= Seq::<Words>::empty());
    } else {
        lemma_code_length(sts, table, i - 1);
        lemma_pass_two_step(sts, table, i - 1);
        lemma_statement_length(sts[i - 1], table);
        lemma_pass_one_prefix(sts, i);
        assert(sts.take(i).drop_last() =~= sts.take(i - 1));
        assert(sts.take(i).last() == sts[i - 1]);
    }
}

/// After the statement that declares a label once, the table maps it to
/// the address where that statement's code starts.
proof fn lemma_table_entry(sts: Seq<Words>, k: int, i: int)
    requires
        0 <= k < i <= sts.len(),
        pass_one(sts) is Ok,
        has_label(sts[k]),
        declared_once(sts, k),
    ensures
        lookup(pass_one(sts.take(i))->Ok_0.0, label_name(sts[k][0]))
            == Some((pass_one(sts.take(k))->Ok_0.1 % 0x10000) as u16),
    decreases i - k,
{
    lemma_pass_one_prefix(sts, i);
    lemma_pass_one_prefix(sts, i - 1);
    assert(sts.take(i).drop_last() =~= sts.take(i - 1));
    assert(sts.take(i).last() == sts[i - 1]);
    let prev = pass_one(sts.take(i - 1))->Ok_0;
    let st = sts[i - 1];
    assert(pass_one(sts.take(i))->Ok_0.0 == if has_label(st) {
        prev.0.push((label_name(st[0]), (prev.1 % 0x10000) as u16))
    } else {
        prev.0
    });
    if has_label(st) {
        let e = (label_name(st[0]), (prev.1 % 0x10000) as u16);
        assert(prev.0.push(e).drop_last() =~= prev.0);
        assert(prev.0.push(e).last() == e);
    }
    if i - 1 > k {
        lemma_table_entry(sts, k, i - 1);
        assert(has_label(sts[i - 1]) ==> label_name(sts[i - 1][0]) != label_name(sts[k][0]));
    }
}

/// A jump to a label that one statement declares targets the address where
/// that statement's code starts in the assembled bytecode, whether the label
/// comes before or after the jump: the bytes of the jump decode to a jump to
/// that address.
pub proof fn lemma_label_resolution(src: Seq<char>, k: int, j: int)
    requires
        assemble_spec(src) is Ok,
        0 <= k < statements(src).len(),
        0 <= j < statements(src).len(),
        has_label(statements(src)[k]),
        declared_once(statements(src), k),
        jumps_to(statements(src)[j], label_name(statements(src)[k][0])),
        number_spec(label_name(statements(src)[k][0])) is Err,
    ensures
        ({
            let sts = statements(src);
            let table = pass_one(sts)->Ok_0.0;
            let code = assemble_spec(src)->Ok_0;
            let at = code_before(sts, table, j).len() as int;
            let target = (code_before(sts, table, k).len() % 0x10000) as u16;
            let jump = jump_with(mnemonic_opcode(sts[j][mnemonic_index(sts[j])])->Some_0, target);
            &&& code.subrange(at, at + 3) == encode(jump)
            &&& decode_spec(code, at) == Ok::<(Instruction, nat), DecodeError>((jump, 3))
        }),
{
    let sts = statements(src);
    let table = pass_one(sts)->Ok_0.0;
    let code = assemble_spec(src)->Ok_0;
    let name = label_name(sts[k][0]);
    let st = sts[j];
    let op = mnemonic_opcode(st[mnemonic_index(st)])->Some_0;
    assert(sts.take(sts.len() as int) =~= sts);
    lemma_table_entry(sts, k, sts.len() as int);
    lemma_code_length(sts, table, k);
    lemma_pass_two_step(sts, table, j);
    lemma_code_prefix(sts, table, j + 1);
    let target = (code_before(sts, table, k).len() % 0x10000) as u16;
    let jump = jump_with(op, target);
    let ops = st.skip(mnemonic_index(st) + 1);
    assert(ops =~= seq![name]);
    assert(instruction_spec(op, ops, table) == Ok::<Instruction, AssemblyError>(jump));
    assert(statement_code(st, table) == Ok::<Seq<u8>, AssemblyError>(encode(jump)));
    let at = code_before(sts, table, j).len() as int;
    let next = code_before(sts, table, j + 1);
    lemma_encode_shape(jump);
    assert(next == code_before(sts, table, j) + encode(jump));
    assert(code.take(next.len() as int) == next);
    assert(next.len() == at + 3);
    assert(code.subrange(at, at + 3) =~= next.subrange(at, at + 3));
    assert(next.subrange(at, at + 3) =~= encode(jump));
    lemma_decode_encode(code, at, jump);
}

} // verus!
