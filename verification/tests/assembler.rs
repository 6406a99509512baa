use tapec::ast::{Arg, Inst, Lit, Op, Prog, Span, Spanned, Stmt, lit_size, mk_lbl};
use tapec::codegen::gen_code;
use tapec::desugar::desugar_prog;
use tapec::error::{CompileError, ErrorKind};
use tapec::labels::{is_local_name, num_to_string};
use tapec::lexeme::{extract_chr, extract_str};
use tapec::symtab::resolve_symbols;
use tapec::tape::TapeWriter;

fn sp() -> Span {
    Span { start: 0, end: 0 }
}

fn glabel(name: &str) -> Stmt {
    Stmt::Label(mk_lbl(name.to_string(), sp()))
}

fn inst(op: Op, args: Vec<Arg>) -> Stmt {
    Stmt::Inst(Inst::new(op, args, sp()))
}

fn num(n: i32) -> Lit {
    Lit::Num(Spanned::new(n, sp()))
}

fn chr(c: char) -> Lit {
    Lit::Chr(Spanned::new(c, sp()))
}

fn strlit(s: &str) -> Lit {
    Lit::Str(Spanned::new(s.to_string(), sp()))
}

fn lbl(name: &str) -> Lit {
    Lit::Lbl(mk_lbl(name.to_string(), sp()))
}

fn refr(l: Lit) -> Lit {
    Lit::Ref(Box::new(l))
}

fn deref(l: Lit) -> Lit {
    Lit::Deref(Box::new(l))
}

fn alit(l: Lit) -> Arg {
    Arg::Lit(l)
}

fn albl(name: &str) -> Arg {
    Arg::Lbl(mk_lbl(name.to_string(), sp()))
}

fn prog(stmts: Vec<Stmt>) -> Prog {
    Prog { stmts, span: sp() }
}

#[test]
fn nargs_per_opcode() {
    assert_eq!(Op::Hlt.nargs(), 0);
    assert_eq!(Op::Add.nargs(), 3);
    assert_eq!(Op::Mul.nargs(), 3);
    assert_eq!(Op::Cle.nargs(), 3);
    assert_eq!(Op::Ceq.nargs(), 3);
    assert_eq!(Op::Jmp.nargs(), 1);
    assert_eq!(Op::Beq.nargs(), 2);
    assert_eq!(Op::Cpy.nargs(), 2);
    assert_eq!(Op::Put.nargs(), 1);
    assert_eq!(Op::Ptn.nargs(), 1);
}

#[test]
fn encoding_per_opcode() {
    assert_eq!(Op::Hlt.encoding(), 0);
    assert_eq!(Op::Add.encoding(), 1);
    assert_eq!(Op::Mul.encoding(), 2);
    assert_eq!(Op::Cle.encoding(), 3);
    assert_eq!(Op::Ceq.encoding(), 4);
    assert_eq!(Op::Jmp.encoding(), 5);
    assert_eq!(Op::Beq.encoding(), 6);
    assert_eq!(Op::Cpy.encoding(), 7);
    assert_eq!(Op::Put.encoding(), 8);
    assert_eq!(Op::Ptn.encoding(), 9);
}

#[test]
fn lit_size_counts_characters() {
    assert_eq!(lit_size(&strlit("abc")), 3);
    assert_eq!(lit_size(&strlit("")), 0);
    assert_eq!(lit_size(&num(7)), 1);
    assert_eq!(lit_size(&chr('x')), 1);
    assert_eq!(lit_size(&refr(num(7))), 1);
}

#[test]
fn local_name_prefixes() {
    assert!(is_local_name(&".loop".to_string()));
    assert!(is_local_name(&":__arg_0_0".to_string()));
    assert!(!is_local_name(&"main".to_string()));
    assert!(!is_local_name(&"".to_string()));
}

#[test]
fn decimal_rendering() {
    assert_eq!(num_to_string(0), "0");
    assert_eq!(num_to_string(7), "7");
    assert_eq!(num_to_string(42), "42");
    assert_eq!(num_to_string(1234567890), "1234567890");
}

#[test]
fn lexeme_extraction() {
    assert_eq!(extract_str("\"abc\""), "abc");
    assert_eq!(extract_str("\"\""), "");
    assert_eq!(extract_chr("'a'"), 'a');
    assert_eq!(extract_chr("'\\n'"), '\n');
    assert_eq!(extract_chr("'\\t'"), '\t');
    assert_eq!(extract_chr("'\\0'"), '\0');
    assert_eq!(extract_chr("'\\\\'"), '\\');
}

#[test]
fn desugar_is_identity_without_derefs() {
    let p = prog(vec![
        glabel("main"),
        inst(Op::Put, vec![alit(num(5))]),
        inst(Op::Hlt, vec![]),
        Stmt::Lit(num(42)),
    ]);
    let expected = vec![
        glabel("main"),
        inst(Op::Put, vec![alit(num(5))]),
        inst(Op::Hlt, vec![]),
        Stmt::Lit(num(42)),
    ];
    assert_eq!(desugar_prog(&p), expected);
}

#[test]
fn desugar_expands_nested_deref_chain() {
    let p = prog(vec![glabel("main"), inst(Op::Put, vec![alit(deref(deref(lbl("p"))))])]);
    let expected = vec![
        glabel("main"),
        inst(Op::Cpy, vec![alit(lbl("p")), alit(lbl(":__cpy_1_1"))]),
        inst(Op::Cpy, vec![albl(":__cpy_1_1"), alit(lbl(":__arg_1_0"))]),
        inst(Op::Put, vec![albl(":__arg_1_0")]),
    ];
    assert_eq!(desugar_prog(&p), expected);
}

#[test]
fn desugar_gives_distinct_labels_to_sibling_derefs() {
    let p = prog(vec![glabel("main"), inst(
        Op::Beq,
        vec![alit(deref(lbl("a"))), alit(deref(lbl("b")))],
    )]);
    let expected = vec![
        glabel("main"),
        inst(Op::Cpy, vec![alit(lbl("a")), alit(lbl(":__arg_1_0"))]),
        inst(Op::Cpy, vec![alit(lbl("b")), alit(lbl(":__arg_2_0"))]),
        inst(Op::Beq, vec![albl(":__arg_1_0"), albl(":__arg_2_0")]),
    ];
    assert_eq!(desugar_prog(&p), expected);
}

#[test]
fn resolver_collects_blocks_and_code_size() {
    let stmts = vec![
        glabel("main"),
        Stmt::Label(mk_lbl(".l1".to_string(), sp())),
        inst(Op::Put, vec![alit(num(5))]),
        glabel("x"),
        inst(Op::Hlt, vec![]),
    ];
    let t = resolve_symbols(&stmts).unwrap();
    assert_eq!(t.code_size, 3);
    assert_eq!(t.blocks.len(), 2);
    assert_eq!(t.blocks[0].0, "main");
    assert_eq!(t.blocks[0].1.start, 0);
    assert_eq!(t.blocks[0].1.labels, vec![(".l1".to_string(), 0)]);
    assert_eq!(t.blocks[1].0, "x");
    assert_eq!(t.blocks[1].1.start, 2);
    assert!(t.blocks[1].1.labels.is_empty());
}

#[test]
fn resolver_registers_label_arguments() {
    let stmts = vec![glabel("main"), inst(Op::Put, vec![albl(".slot")]), inst(Op::Hlt, vec![])];
    let t = resolve_symbols(&stmts).unwrap();
    assert_eq!(t.code_size, 3);
    assert_eq!(t.blocks[0].1.labels, vec![(".slot".to_string(), 1)]);
}

#[test]
fn local_label_without_block_fails() {
    let stmts = vec![Stmt::Label(mk_lbl(".x".to_string(), sp())), inst(Op::Hlt, vec![])];
    let e = resolve_symbols(&stmts).unwrap_err();
    assert_eq!(e.kind, ErrorKind::NoParentLabel);
}

#[test]
fn local_label_argument_without_block_fails() {
    let stmts = vec![inst(Op::Put, vec![albl(".x")])];
    let e = resolve_symbols(&stmts).unwrap_err();
    assert_eq!(e.kind, ErrorKind::NoParentLabel);
}

#[test]
fn end_to_end_put_ref_char() {
    // main:
    //   put &'A'
    //   hlt
    let p = prog(vec![
        glabel("main"),
        inst(Op::Put, vec![alit(refr(chr('A')))]),
        inst(Op::Hlt, vec![]),
    ]);
    let tape = gen_code(&p, 16).unwrap();
    assert_eq!(tape.len(), 16);
    assert_eq!(tape[0], Op::Put.encoding());
    assert_eq!(tape[1], 3);
    assert_eq!(tape[2], Op::Hlt.encoding());
    assert_eq!(tape[3], 65);
    for i in 4..16 {
        assert_eq!(tape[i], 0);
    }
}

#[test]
fn ref_string_allocates_in_order() {
    let p = prog(vec![glabel("main"), inst(Op::Put, vec![alit(refr(strlit("abc")))])]);
    let tape = gen_code(&p, 16).unwrap();
    assert_eq!(tape[0], Op::Put.encoding());
    assert_eq!(tape[1], 2);
    assert_eq!(tape[2], 'a' as i32);
    assert_eq!(tape[3], 'b' as i32);
    assert_eq!(tape[4], 'c' as i32);
    for i in 5..16 {
        assert_eq!(tape[i], 0);
    }
}

#[test]
fn string_statement_writes_inline() {
    let p = prog(vec![glabel("main"), Stmt::Lit(strlit("hi"))]);
    let tape = gen_code(&p, 8).unwrap();
    assert_eq!(tape[0], 'h' as i32);
    assert_eq!(tape[1], 'i' as i32);
    for i in 2..8 {
        assert_eq!(tape[i], 0);
    }
}

#[test]
fn backward_literal_deref_yields_value() {
    // The dereferenced cell was written earlier in the pass: the literal's
    // value, not its address, lands in the cell.
    let p = prog(vec![
        glabel("main"),
        Stmt::Label(mk_lbl(".d".to_string(), sp())),
        Stmt::Lit(num(42)),
        Stmt::Lit(deref(lbl(".d"))),
    ]);
    let tape = gen_code(&p, 8).unwrap();
    assert_eq!(tape[0], 42);
    assert_eq!(tape[1], 42);
}

#[test]
fn forward_literal_deref_fails() {
    let p = prog(vec![
        glabel("main"),
        Stmt::Lit(deref(lbl(".d"))),
        Stmt::Label(mk_lbl(".d".to_string(), sp())),
        Stmt::Lit(num(42)),
    ]);
    let e = gen_code(&p, 8).unwrap_err();
    assert_eq!(e.kind, ErrorKind::UnresolvedCompileTimeDeref);
}

#[test]
fn deref_argument_copies_value_through_synthetic_slot() {
    // main:
    //   .ptr:
    //   7
    //   put *'.ptr
    //   hlt
    let p = prog(vec![
        glabel("main"),
        Stmt::Label(mk_lbl(".ptr".to_string(), sp())),
        Stmt::Lit(num(7)),
        inst(Op::Put, vec![alit(deref(lbl(".ptr")))]),
        inst(Op::Hlt, vec![]),
    ]);
    let tape = gen_code(&p, 16).unwrap();
    // literal cell, then: cpy '.ptr ':__arg_3_0 / put <:__arg_3_0> / hlt
    assert_eq!(tape[0], 7);
    assert_eq!(tape[1], Op::Cpy.encoding());
    assert_eq!(tape[2], 0); // address of the .ptr cell
    assert_eq!(tape[3], 5); // address of put's operand slot
    assert_eq!(tape[4], Op::Put.encoding());
    assert_eq!(tape[5], 5); // the slot resolves to its own offset until run time
    assert_eq!(tape[6], Op::Hlt.encoding());
}

#[test]
fn label_argument_slot_holds_its_own_offset() {
    // the resolver registers a bare label argument at its own slot, and the
    // emitter resolves the slot through the same table
    let p = prog(vec![glabel("main"), inst(Op::Put, vec![albl(".slot")]), inst(Op::Hlt, vec![])]);
    let tape = gen_code(&p, 8).unwrap();
    assert_eq!(tape[0], Op::Put.encoding());
    assert_eq!(tape[1], 1);
    assert_eq!(tape[2], Op::Hlt.encoding());
}

#[test]
fn local_labels_invisible_in_other_block() {
    let p = prog(vec![
        glabel("a"),
        Stmt::Label(mk_lbl(".x".to_string(), sp())),
        inst(Op::Hlt, vec![]),
        glabel("b"),
        inst(Op::Jmp, vec![alit(lbl(".x"))]),
    ]);
    let e = gen_code(&p, 16).unwrap_err();
    assert_eq!(e.kind, ErrorKind::UndefinedLabel);
}

#[test]
fn local_label_visible_in_own_block() {
    let p = prog(vec![
        glabel("a"),
        Stmt::Label(mk_lbl(".x".to_string(), sp())),
        inst(Op::Hlt, vec![]),
        inst(Op::Jmp, vec![alit(lbl(".x"))]),
    ]);
    let tape = gen_code(&p, 16).unwrap();
    assert_eq!(tape[0], Op::Hlt.encoding());
    assert_eq!(tape[1], Op::Jmp.encoding());
    assert_eq!(tape[2], 0);
}

#[test]
fn global_label_redeclaration_last_wins() {
    let p = prog(vec![
        glabel("b"),
        inst(Op::Hlt, vec![]),
        glabel("b"),
        inst(Op::Hlt, vec![]),
        glabel("main"),
        inst(Op::Jmp, vec![alit(lbl("b"))]),
    ]);
    let tape = gen_code(&p, 16).unwrap();
    assert_eq!(tape[2], Op::Jmp.encoding());
    assert_eq!(tape[3], 1); // start of the second b, not the first
}

#[test]
fn undefined_global_label_fails() {
    let p = prog(vec![glabel("main"), inst(Op::Jmp, vec![alit(lbl("nowhere"))])]);
    let e = gen_code(&p, 16).unwrap_err();
    assert_eq!(e.kind, ErrorKind::UndefinedLabel);
}

#[test]
fn local_literal_outside_block_fails() {
    let p = prog(vec![Stmt::Lit(lbl(".x"))]);
    let e = gen_code(&p, 16).unwrap_err();
    assert_eq!(e.kind, ErrorKind::LocalLabelOutsideBlock);
}

#[test]
fn no_parent_label_precedes_overflow() {
    // the resolver completes its whole scan before any capacity concern:
    // a misplaced local label after over-large statements still reports
    // NoParentLabel, never TapeOverflow
    let stmts = prog(vec![
        Stmt::Lit(num(5)),
        Stmt::Lit(num(6)),
        Stmt::Label(mk_lbl(".x".to_string(), sp())),
        glabel("g"),
    ]);
    let e = gen_code(&stmts, 1).unwrap_err();
    assert_eq!(e.kind, ErrorKind::NoParentLabel);
}

#[test]
fn overflow_reported_at_crossing_statement() {
    // TapeOverflow belongs to emission: it carries the span of the statement
    // whose write first runs past the capacity
    let p = prog(vec![
        glabel("main"),
        Stmt::Inst(Inst::new(Op::Put, vec![alit(num(1))], Span { start: 5, end: 6 })),
        Stmt::Inst(Inst::new(Op::Hlt, vec![], Span { start: 9, end: 9 })),
    ]);
    let e = gen_code(&p, 2).unwrap_err();
    assert_eq!(e.kind, ErrorKind::TapeOverflow);
    assert_eq!(e.span, Span { start: 9, end: 9 });
}

#[test]
fn code_overflow_fails() {
    // capacity 4, but the program needs 5 cells
    let p = prog(vec![
        glabel("main"),
        inst(Op::Add, vec![alit(num(1)), alit(num(2)), alit(num(3))]),
        inst(Op::Hlt, vec![]),
    ]);
    let e = gen_code(&p, 4).unwrap_err();
    assert_eq!(e.kind, ErrorKind::TapeOverflow);
}

#[test]
fn data_overflow_fails() {
    let p = prog(vec![
        glabel("main"),
        inst(Op::Put, vec![alit(refr(chr('A')))]),
        inst(Op::Hlt, vec![]),
    ]);
    // 3 code cells fit exactly, but the data cell for 'A' does not
    let e = gen_code(&p, 3).unwrap_err();
    assert_eq!(e.kind, ErrorKind::TapeOverflow);
    // one more cell and the same program compiles
    let tape = gen_code(&p, 4).unwrap();
    assert_eq!(tape, vec![8, 3, 0, 65]);
}

#[test]
fn tape_length_always_equals_capacity() {
    let p = prog(vec![glabel("main"), inst(Op::Hlt, vec![])]);
    for cap in [1usize, 2, 16, 100] {
        let tape = gen_code(&p, cap).unwrap();
        assert_eq!(tape.len(), cap);
        for i in 1..cap {
            assert_eq!(tape[i], 0);
        }
    }
}

#[test]
fn negative_number_operand() {
    let p = prog(vec![glabel("main"), inst(Op::Put, vec![alit(num(-5))]), inst(Op::Hlt, vec![])]);
    let tape = gen_code(&p, 4).unwrap();
    assert_eq!(tape, vec![8, -5, 0, 0]);
}

#[test]
fn escaped_char_operand() {
    let p = prog(vec![glabel("main"), inst(Op::Put, vec![alit(chr('\n'))])]);
    let tape = gen_code(&p, 4).unwrap();
    assert_eq!(tape, vec![8, 10, 0, 0]);
}

#[test]
fn nested_ref_allocates_twice() {
    // &&5 stores 5 in one data cell, stores that cell's address in a second,
    // and the operand holds the second cell's address
    let p = prog(vec![glabel("main"), inst(Op::Put, vec![alit(refr(refr(num(5))))])]);
    let tape = gen_code(&p, 8).unwrap();
    assert_eq!(tape[0], Op::Put.encoding());
    assert_eq!(tape[1], 3);
    assert_eq!(tape[2], 5);
    assert_eq!(tape[3], 2);
}

#[test]
fn deref_of_ref_reads_fresh_cell() {
    // *&7 allocates 7 in the data region and immediately reads it back
    let p = prog(vec![glabel("main"), Stmt::Lit(deref(refr(num(7))))]);
    let tape = gen_code(&p, 8).unwrap();
    assert_eq!(tape[0], 7);
    assert_eq!(tape[1], 7); // the data cell itself
}

#[test]
fn unicode_string_one_cell_per_character() {
    let p = prog(vec![glabel("main"), Stmt::Lit(strlit("éñ"))]);
    let tape = gen_code(&p, 4).unwrap();
    assert_eq!(tape, vec!['é' as i32, 'ñ' as i32, 0, 0]);
}

#[test]
fn empty_program_compiles_to_zeros() {
    let p = prog(vec![]);
    let tape = gen_code(&p, 4).unwrap();
    assert_eq!(tape, vec![0, 0, 0, 0]);
}

#[test]
fn tape_writer_cursors() {
    let mut t = TapeWriter::new(8, 3);
    assert_eq!(t.val_at(0), None);
    assert_eq!(t.write(5), Some(0));
    assert_eq!(t.val_at(0), Some(5));
    assert_eq!(t.val_at(1), None);
    assert_eq!(t.write_end(9), Some(3));
    assert_eq!(t.val_at(3), Some(9));
    assert_eq!(t.val_at(4), None);
    assert_eq!(t.write(6), Some(1));
    assert_eq!(t.write(7), Some(2));
    // the main cursor may not cross into the data region
    assert_eq!(t.write(8), None);
    assert_eq!(t.tape, vec![5, 6, 7, 9, 0, 0, 0, 0]);
}

#[test]
fn tape_writer_strings() {
    let mut t = TapeWriter::new(6, 2);
    assert_eq!(t.write_str("hi"), Some(0));
    assert_eq!(t.write_end_str("ab"), Some(2));
    assert_eq!(t.tape, vec![104, 105, 97, 98, 0, 0]);
    // four data cells do not fit in the two remaining
    assert_eq!(t.write_end_str("wxyz"), None);
}

#[test]
fn error_messages() {
    let e = CompileError::new(ErrorKind::TapeOverflow, Span { start: 3, end: 5 });
    assert_eq!(e.message(), "tape size exceeded");
    assert_eq!(e.span.start, 3);
    assert_eq!(e.span.end, 5);
    let e2 = CompileError::new(ErrorKind::NoParentLabel, Span { start: 0, end: 0 });
    assert_eq!(e2.message(), "no parent label");
}
