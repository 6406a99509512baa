//! The tape image builder: resolves label references, expands literal
//! expressions into values and data-region allocations, and emits the final
//! fixed-size image; `gen_code` ties the whole pipeline together.

use vstd::prelude::*;
use crate::ast::{Arg, ArgV, Label, Lit, LitV, Prog, Span, Spanned, Stmt, StmtV, arg_views,
    lit_ok, spec_encoding, stmt_ok, stmts_ok, stmt_views};
use crate::desugar::{desugar_prog, spec_desugar, stmts_depth_ok};
use crate::error::{CompileError, ErrorKind};
use crate::labels::{is_local_name, spec_is_local};
use crate::symtab::{Block, BlockV, SymTab, assoc_find, block_get, block_entry_views, block_wf,
    find_block, resolve_symbols, spec_symtab, symtab_wf};
use crate::tape::{MAX_CAPACITY, TapeSt, TapeWriter, char_val, spec_val_at, spec_write,
    spec_write_end, spec_write_end_str, spec_write_str, tape_wf, tape_zeros,
    lemma_write_preserves, lemma_write_str_preserves};

verus! {

/// Resolving a label reference during emission: a local name through the
/// active block's table, a global name to its block's start offset.
pub open spec fn spec_get_lbl(
    name: Seq<char>,
    span: Span,
    cur: Option<BlockV>,
    blocks: Seq<(Seq<char>, BlockV)>,
) -> Result<(i32, Span), CompileError> {
    if spec_is_local(name) {
        match cur {
            None => Err(CompileError { kind: ErrorKind::LocalLabelOutsideBlock, span }),
            Some(b) => match assoc_find(b.labels, name) {
                Some(off) => Ok((off as i32, span)),
                None => Err(CompileError { kind: ErrorKind::UndefinedLabel, span }),
            },
        }
    } else {
        match assoc_find(blocks, name) {
            Some(b) => Ok((b.start as i32, span)),
            None => Err(CompileError { kind: ErrorKind::UndefinedLabel, span }),
        }
    }
}

/// Compile-time evaluation of a literal expression to a signed 32-bit cell
/// value. `Ref` allocates in the data region and yields the address; `Deref`
/// reads a cell already written in this pass. The span of the result is the
/// span evaluation ended at, used by enclosing forms for diagnostics.
pub open spec fn spec_expand_lit(
    l: LitV,
    cur: Option<BlockV>,
    blocks: Seq<(Seq<char>, BlockV)>,
    t: TapeSt,
) -> Result<(i32, Span, TapeSt), CompileError>
    decreases l,
{
    match l {
        LitV::Num(n) => Ok((n.inner, n.span, t)),
        LitV::Chr(c) => Ok((char_val(c.inner), c.span, t)),
        LitV::Lbl(lbl) => match spec_get_lbl(lbl.inner, lbl.span, cur, blocks) {
            Ok(v) => Ok((v.0, v.1, t)),
            Err(e) => Err(e),
        },
        // A bare string is not a value; the parsing layer keeps it out of
        // value position, and `lit_ok` rules it out here.
        LitV::Str(s) => Err(CompileError { kind: ErrorKind::UndefinedLabel, span: s.span }),
        LitV::Ref(inner) => match *inner {
            LitV::Str(s) => match spec_write_end_str(t, s.inner) {
                Some(w) => Ok((w.0 as i32, s.span, w.1)),
                None => Err(CompileError { kind: ErrorKind::TapeOverflow, span: s.span }),
            },
            _ => match spec_expand_lit(*inner, cur, blocks, t) {
                Err(e) => Err(e),
                Ok(r) => match spec_write_end(r.2, r.0) {
                    Some(w) => Ok((w.0 as i32, r.1, w.1)),
                    None => Err(CompileError { kind: ErrorKind::TapeOverflow, span: r.1 }),
                },
            },
        },
        LitV::Deref(inner) => match spec_expand_lit(*inner, cur, blocks, t) {
            Err(e) => Err(e),
            Ok(r) => if 0 <= r.0 && spec_val_at(r.2, r.0 as int) is Some {
                Ok((spec_val_at(r.2, r.0 as int).unwrap(), r.1, r.2))
            } else {
                Err(CompileError { kind: ErrorKind::UnresolvedCompileTimeDeref, span: r.1 })
            },
        },
    }
}

/// The view of the active block during emission.
pub open spec fn opt_block_view(c: Option<&Block>) -> Option<BlockV> {
    match c {
        None => None,
        Some(b) => Some(b@),
    }
}

/// Every offset the emission context holds fits a signed 32-bit cell.
pub open spec fn ctx_wf(cur: Option<BlockV>, blocks: Seq<(Seq<char>, BlockV)>) -> bool {
    &&& match cur {
        None => true,
        Some(b) => block_wf(b, MAX_CAPACITY as int),
    }
    &&& forall|j: int| 0 <= j < blocks.len() ==> block_wf((#[trigger] blocks[j]).1, MAX_CAPACITY as int)
}

/// A found entry was really in the list.
pub proof fn lemma_assoc_find_in<V>(s: Seq<(Seq<char>, V)>, k: Seq<char>)
    ensures
        match assoc_find(s, k) {
            Some(v) => exists|j: int| 0 <= j < s.len() && s[j] == (k, v),
            None => true,
        },
    decreases s.len(),
{
    if s.len() == 0 {
    } else if s.last().0 == k {
        assert(s[s.len() - 1] == (k, s.last().1));
    } else {
        lemma_assoc_find_in(s.drop_last(), k);
        match assoc_find(s.drop_last(), k) {
            Some(v) => {
                let j = choose|j: int| 0 <= j < s.drop_last().len() && s.drop_last()[j] == (k, v);
                assert(s[j] == (k, v));
            },
            None => {},
        }
    }
}

/// Resolves one label reference against the active block and the block
/// mapping. A local name is invisible outside its own block: it resolves only
/// through the active block's table, and fails `UndefinedLabel` when that
/// table does not hold it, or `LocalLabelOutsideBlock` when no block is
/// active. A global name resolves to its block's start offset, last
/// definition first.
pub fn get_lbl(lbl: &Label, cur: Option<&Block>, blocks: &Vec<(String, Block)>) -> (r: Result<
    Spanned<i32>,
    CompileError,
>)
    requires
        ctx_wf(opt_block_view(cur), block_entry_views(blocks@)),
    ensures
        match r {
            Ok(s) => spec_get_lbl(lbl@.inner, lbl.span, opt_block_view(cur), block_entry_views(
                blocks@,
            )) == Ok::<(i32, Span), CompileError>((s.inner, s.span)),
            Err(e) => spec_get_lbl(lbl@.inner, lbl.span, opt_block_view(cur), block_entry_views(
                blocks@,
            )) == Err::<(i32, Span), CompileError>(e),
        },
{
    let span = lbl.span;
    if is_local_name(&lbl.inner) {
        match cur {
            Some(block) => match block_get(block, &lbl.inner) {
                Some(off) => {
                    proof {
                        lemma_assoc_find_in(block@.labels, lbl.inner@);
                    }
                    Ok(Spanned::new(off as i32, span))
                },
                None => Err(CompileError::new(ErrorKind::UndefinedLabel, span)),
            },
            None => Err(CompileError::new(ErrorKind::LocalLabelOutsideBlock, span)),
        }
    } else {
        match find_block(blocks, &lbl.inner) {
            Some(i) => {
                let b = &blocks[i].1;
                proof {
                    assert(block_wf(block_entry_views(blocks@)[i as int].1, MAX_CAPACITY as int));
                }
                Ok(Spanned::new(b.start as i32, span))
            },
            None => Err(CompileError::new(ErrorKind::UndefinedLabel, span)),
        }
    }
}

/// Expansion only allocates: it never moves the main cursor, never changes the
/// region boundary or the length, and keeps the tape well formed.
pub proof fn lemma_expand_preserves(
    l: LitV,
    cur: Option<BlockV>,
    blocks: Seq<(Seq<char>, BlockV)>,
    t: TapeSt,
)
    requires
        tape_wf(t),
    ensures
        match spec_expand_lit(l, cur, blocks, t) {
            Ok(r) => {
                &&& tape_wf(r.2)
                &&& (tape_zeros(t) ==> tape_zeros(r.2))
                &&& r.2.tape.len() == t.tape.len()
                &&& r.2.data_start == t.data_start
                &&& r.2.idx == t.idx
                &&& r.2.data_idx >= t.data_idx
                &&& forall|j: int| 0 <= j < t.idx ==> r.2.tape[j] == t.tape[j]
            },
            Err(_) => true,
        },
    decreases l,
{
    match l {
        LitV::Ref(inner) => match *inner {
            LitV::Str(s) => {
                lemma_write_str_preserves(t, s.inner);
            },
            _ => {
                lemma_expand_preserves(*inner, cur, blocks, t);
                match spec_expand_lit(*inner, cur, blocks, t) {
                    Ok(r) => {
                        lemma_write_preserves(r.2, r.0);
                    },
                    Err(_) => {},
                }
            },
        },
        LitV::Deref(inner) => {
            lemma_expand_preserves(*inner, cur, blocks, t);
        },
        _ => {},
    }
}

/// Evaluates one literal expression against the already-written tape,
/// allocating `Ref` operands into the data region. Whatever the outcome, the
/// main cursor, the region boundary and every already-written cell stand
/// unchanged; only the data cursor may have advanced, over allocations made
/// before an error stopped the walk.
pub fn expand_lit(
    lit: &Lit,
    cur: Option<&Block>,
    blocks: &Vec<(String, Block)>,
    tape: &mut TapeWriter,
) -> (r: Result<Spanned<i32>, CompileError>)
    requires
        lit_ok(lit@),
        tape_wf(old(tape)@),
        old(tape)@.tape.len() <= MAX_CAPACITY as int,
        ctx_wf(opt_block_view(cur), block_entry_views(blocks@)),
    ensures
        tape_wf(final(tape)@),
        final(tape)@.tape.len() == old(tape)@.tape.len(),
        final(tape)@.data_start == old(tape)@.data_start,
        final(tape)@.idx == old(tape)@.idx,
        final(tape)@.data_idx >= old(tape)@.data_idx,
        forall|j: int| 0 <= j < old(tape)@.idx ==> final(tape)@.tape[j] == old(tape)@.tape[j],
        forall|j: int|
            old(tape)@.data_start <= j < old(tape)@.data_idx ==> final(tape)@.tape[j] == old(
                tape,
            )@.tape[j],
        match r {
            Ok(s) => spec_expand_lit(lit@, opt_block_view(cur), block_entry_views(blocks@), old(
                tape,
            )@) == Ok::<(i32, Span, TapeSt), CompileError>((s.inner, s.span, final(tape)@)),
            Err(e) => spec_expand_lit(lit@, opt_block_view(cur), block_entry_views(blocks@), old(
                tape,
            )@) == Err::<(i32, Span, TapeSt), CompileError>(e),
        },
    decreases *lit,
{
    match lit {
        Lit::Num(n) => Ok(Spanned::new(n.inner, n.span)),
        Lit::Chr(c) => {
            let v = crate::tape::char_to_i32(c.inner);
            Ok(Spanned::new(v, c.span))
        },
        Lit::Lbl(lbl) => get_lbl(lbl, cur, blocks),
        Lit::Str(s) => {
            // unreachable: `lit_ok` keeps a bare string out of value position
            proof {
                assert(false);
            }
            Err(CompileError::new(ErrorKind::UndefinedLabel, s.span))
        },
        Lit::Ref(inner) => {
            match &**inner {
                Lit::Str(s) => {
                    let w = tape.write_end_str(s.inner.as_str());
                    proof {
                        lemma_write_str_preserves(old(tape)@, s.inner@);
                    }
                    match w {
                        Some(v) => Ok(Spanned::new(v as i32, s.span)),
                        None => Err(CompileError::new(ErrorKind::TapeOverflow, s.span)),
                    }
                },
                other => {
                    let res = match expand_lit(other, cur, blocks, tape) {
                        Ok(r) => r,
                        Err(e) => {
                            return Err(e);
                        },
                    };
                    let ghost mid = tape@;
                    let w = tape.write_end(res.inner);
                    proof {
                        lemma_write_preserves(mid, res.inner);
                    }
                    match w {
                        Some(v) => Ok(Spanned::new(v as i32, res.span)),
                        None => Err(CompileError::new(ErrorKind::TapeOverflow, res.span)),
                    }
                },
            }
        },
        Lit::Deref(inner) => {
            let res = match expand_lit(inner, cur, blocks, tape) {
                Ok(r) => r,
                Err(e) => {
                    return Err(e);
                },
            };
            if res.inner >= 0 {
                match tape.val_at(res.inner as usize) {
                    Some(v) => Ok(Spanned::new(v, res.span)),
                    None => Err(
                        CompileError::new(ErrorKind::UnresolvedCompileTimeDeref, res.span),
                    ),
                }
            } else {
                Err(CompileError::new(ErrorKind::UnresolvedCompileTimeDeref, res.span))
            }
        },
    }
}

/// Emitting one argument cell: a bare local-label slot resolves through the
/// active block's table (the resolver registered the slot itself there, so
/// the name exists at least once) and holds the resolved offset; a literal
/// expression is expanded and its value written.
pub open spec fn spec_emit_arg(
    a: ArgV,
    cur: Option<BlockV>,
    blocks: Seq<(Seq<char>, BlockV)>,
    t: TapeSt,
) -> Result<TapeSt, CompileError> {
    match a {
        ArgV::Lbl(l) => match spec_get_lbl(l.inner, l.span, cur, blocks) {
            Err(e) => Err(e),
            Ok(v) => match spec_write(t, v.0) {
                Some(w) => Ok(w.1),
                None => Err(CompileError { kind: ErrorKind::TapeOverflow, span: v.1 }),
            },
        },
        ArgV::Lit(lit) => match spec_expand_lit(lit, cur, blocks, t) {
            Err(e) => Err(e),
            Ok(r) => match spec_write(r.2, r.0) {
                Some(w) => Ok(w.1),
                None => Err(CompileError { kind: ErrorKind::TapeOverflow, span: r.1 }),
            },
        },
    }
}

pub open spec fn spec_emit_args(
    args: Seq<ArgV>,
    cur: Option<BlockV>,
    blocks: Seq<(Seq<char>, BlockV)>,
    t: TapeSt,
) -> Result<TapeSt, CompileError>
    decreases args.len(),
{
    if args.len() == 0 {
        Ok(t)
    } else {
        match spec_emit_arg(args[0], cur, blocks, t) {
            Err(e) => Err(e),
            Ok(t2) => spec_emit_args(args.drop_first(), cur, blocks, t2),
        }
    }
}

/// Emitting one statement: a global label only switches the active block; a
/// local label writes nothing; an instruction writes its opcode's encoding and
/// then its argument cells in source order; a standalone string literal writes
/// its characters, any other standalone literal one resolved cell.
pub open spec fn spec_emit_stmt(
    s: StmtV,
    cur: Option<BlockV>,
    blocks: Seq<(Seq<char>, BlockV)>,
    t: TapeSt,
) -> Result<(Option<BlockV>, TapeSt), CompileError> {
    match s {
        StmtV::Label(l) => if spec_is_local(l.inner) {
            Ok((cur, t))
        } else {
            match assoc_find(blocks, l.inner) {
                Some(b) => Ok((Some(b), t)),
                None => Err(CompileError { kind: ErrorKind::UndefinedLabel, span: l.span }),
            }
        },
        StmtV::Inst(i) => match spec_write(t, spec_encoding(i.op)) {
            None => Err(CompileError { kind: ErrorKind::TapeOverflow, span: i.span }),
            Some(w) => match spec_emit_args(i.args, cur, blocks, w.1) {
                Err(e) => Err(e),
                Ok(t2) => Ok((cur, t2)),
            },
        },
        StmtV::Lit(l) => match l {
            LitV::Str(s) => match spec_write_str(t, s.inner) {
                Some(w) => Ok((cur, w.1)),
                None => Err(CompileError { kind: ErrorKind::TapeOverflow, span: s.span }),
            },
            _ => match spec_expand_lit(l, cur, blocks, t) {
                Err(e) => Err(e),
                Ok(r) => match spec_write(r.2, r.0) {
                    Some(w) => Ok((cur, w.1)),
                    None => Err(CompileError { kind: ErrorKind::TapeOverflow, span: r.1 }),
                },
            },
        },
    }
}

/// The second pass over the desugared stream: emits every cell of the image,
/// re-deriving the active block from the global-label statements in order.
pub open spec fn spec_emit(
    stmts: Seq<StmtV>,
    cur: Option<BlockV>,
    blocks: Seq<(Seq<char>, BlockV)>,
    t: TapeSt,
) -> Result<(Option<BlockV>, TapeSt), CompileError>
    decreases stmts.len(),
{
    if stmts.len() == 0 {
        Ok((cur, t))
    } else {
        match spec_emit_stmt(stmts[0], cur, blocks, t) {
            Err(e) => Err(e),
            Ok(p) => spec_emit(stmts.drop_first(), p.0, blocks, p.1),
        }
    }
}

/// The zero-filled image the emitter starts from: main cursor at 0, data
/// cursor at the given region boundary.
pub open spec fn spec_tape_init(cap: int, data_start: int) -> TapeSt {
    TapeSt {
        tape: Seq::new(cap as nat, |i: int| 0i32),
        idx: 0,
        data_idx: data_start,
        data_start: data_start,
    }
}

/// Where the data region starts: at the end of the code region, clamped to
/// the tape. When the code alone cannot fit, the main cursor still fails with
/// `TapeOverflow` at the first write past the capacity.
pub open spec fn spec_data_start(code_size: int, cap: int) -> int {
    if code_size <= cap {
        code_size
    } else {
        cap
    }
}

/// The finished image of a whole emission run, or its first error.
pub open spec fn spec_gen_tape(
    stmts: Seq<StmtV>,
    blocks: Seq<(Seq<char>, BlockV)>,
    code_size: int,
    cap: int,
) -> Result<Seq<i32>, CompileError> {
    match spec_emit(stmts, None, blocks, spec_tape_init(cap, spec_data_start(code_size, cap))) {
        Ok(p) => Ok(p.1.tape),
        Err(e) => Err(e),
    }
}

/// The view of the active block held as an index into the symbol table.
pub open spec fn cur_idx_view(t: SymTab, c: Option<usize>) -> Option<BlockV> {
    match c {
        None => None,
        Some(i) => Some(block_entry_views(t.blocks@)[i as int].1),
    }
}

pub open spec fn cur_idx_ok(t: SymTab, c: Option<usize>) -> bool {
    match c {
        None => true,
        Some(i) => i < t.blocks@.len(),
    }
}

/// Emits the argument cells of one instruction from index `k` on.
fn emit_args(
    args: &Vec<Arg>,
    k: usize,
    symtab: &SymTab,
    cur: Option<usize>,
    tape: &mut TapeWriter,
) -> (r: Result<(), CompileError>)
    requires
        k <= args@.len(),
        forall|j: int| 0 <= j < args@.len() ==> #[trigger] crate::ast::arg_ok(args@[j]@),
        tape_wf(old(tape)@),
        old(tape)@.tape.len() <= MAX_CAPACITY as int,
        ctx_wf(cur_idx_view(*symtab, cur), block_entry_views(symtab.blocks@)),
        cur_idx_ok(*symtab, cur),
    ensures
        tape_wf(final(tape)@),
        final(tape)@.tape.len() == old(tape)@.tape.len(),
        final(tape)@.data_start == old(tape)@.data_start,
        match r {
            Ok(_) => spec_emit_args(
                arg_views(args@).skip(k as int),
                cur_idx_view(*symtab, cur),
                block_entry_views(symtab.blocks@),
                old(tape)@,
            ) == Ok::<TapeSt, CompileError>(final(tape)@),
            Err(e) => spec_emit_args(
                arg_views(args@).skip(k as int),
                cur_idx_view(*symtab, cur),
                block_entry_views(symtab.blocks@),
                old(tape)@,
            ) == Err::<TapeSt, CompileError>(e),
        },
    decreases args@.len() - k,
{
    if k == args.len() {
        proof {
            assert(arg_views(args@).skip(k as int) =~= Seq::<ArgV>::empty());
        }
        Ok(())
    } else {
        let ghost rest = arg_views(args@).skip(k as int);
        proof {
            assert(rest[0] == args@[k as int]@);
            assert(rest.drop_first() =~= arg_views(args@).skip(k as int + 1));
            assert(crate::ast::arg_ok(args@[k as int]@));
        }
        let curb: Option<&Block> = match cur {
            Some(i) => Some(&symtab.blocks[i].1),
            None => None,
        };
        proof {
            assert(opt_block_view(curb) == cur_idx_view(*symtab, cur));
        }
        let arg = &args[k];
        match arg {
            Arg::Lbl(l) => {
                let res = match get_lbl(l, curb, &symtab.blocks) {
                    Ok(v) => v,
                    Err(e) => {
                        return Err(e);
                    },
                };
                let ghost mid0 = tape@;
                let w = tape.write(res.inner);
                proof {
                    lemma_write_preserves(mid0, res.inner);
                }
                match w {
                    None => {
                        return Err(CompileError::new(ErrorKind::TapeOverflow, res.span));
                    },
                    Some(_) => {},
                }
            },
            Arg::Lit(lit) => {
                let res = match expand_lit(lit, curb, &symtab.blocks, tape) {
                    Ok(v) => v,
                    Err(e) => {
                        return Err(e);
                    },
                };
                let ghost mid = tape@;
                let w = tape.write(res.inner);
                proof {
                    lemma_write_preserves(mid, res.inner);
                }
                match w {
                    None => {
                        return Err(CompileError::new(ErrorKind::TapeOverflow, res.span));
                    },
                    Some(_) => {},
                }
            },
        }
        emit_args(args, k + 1, symtab, cur, tape)
    }
}

/// Emits one statement of the desugared stream, returning the active block
/// for the statements after it.
fn emit_stmt(stmt: &Stmt, symtab: &SymTab, cur: Option<usize>, tape: &mut TapeWriter) -> (r:
    Result<Option<usize>, CompileError>)
    requires
        stmt_ok(stmt@),
        tape_wf(old(tape)@),
        old(tape)@.tape.len() <= MAX_CAPACITY as int,
        ctx_wf(cur_idx_view(*symtab, cur), block_entry_views(symtab.blocks@)),
        cur_idx_ok(*symtab, cur),
    ensures
        tape_wf(final(tape)@),
        final(tape)@.tape.len() == old(tape)@.tape.len(),
        final(tape)@.data_start == old(tape)@.data_start,
        match r {
            Ok(c2) => {
                &&& spec_emit_stmt(
                    stmt@,
                    cur_idx_view(*symtab, cur),
                    block_entry_views(symtab.blocks@),
                    old(tape)@,
                ) == Ok::<(Option<BlockV>, TapeSt), CompileError>(
                    (cur_idx_view(*symtab, c2), final(tape)@),
                )
                &&& cur_idx_ok(*symtab, c2)
            },
            Err(e) => spec_emit_stmt(
                stmt@,
                cur_idx_view(*symtab, cur),
                block_entry_views(symtab.blocks@),
                old(tape)@,
            ) == Err::<(Option<BlockV>, TapeSt), CompileError>(e),
        },
{
    let curb: Option<&Block> = match cur {
        Some(i) => Some(&symtab.blocks[i].1),
        None => None,
    };
    proof {
        assert(opt_block_view(curb) == cur_idx_view(*symtab, cur));
    }
    match stmt {
        Stmt::Label(lbl) => {
            if is_local_name(&lbl.inner) {
                Ok(cur)
            } else {
                match find_block(&symtab.blocks, &lbl.inner) {
                    Some(i) => Ok(Some(i)),
                    None => Err(CompileError::new(ErrorKind::UndefinedLabel, lbl.span)),
                }
            }
        },
        Stmt::Inst(inst) => {
            let enc = inst.op.encoding();
            let ghost mid0 = tape@;
            let w = tape.write(enc);
            proof {
                lemma_write_preserves(mid0, enc);
            }
            match w {
                None => {
                    return Err(CompileError::new(ErrorKind::TapeOverflow, inst.span));
                },
                Some(_) => {},
            }
            proof {
                assert(arg_views(inst.args@).skip(0) =~= arg_views(inst.args@));
                assert(inst@.args == arg_views(inst.args@));
                assert forall|j: int| 0 <= j < inst.args@.len() implies #[trigger] crate::ast::arg_ok(
                    inst.args@[j]@,
                ) by {
                    assert(inst@.args[j] == inst.args@[j]@);
                    assert(crate::ast::arg_ok(inst@.args[j]));
                }
            }
            match emit_args(&inst.args, 0, symtab, cur, tape) {
                Err(e) => Err(e),
                Ok(_) => Ok(cur),
            }
        },
        Stmt::Lit(lit) => {
            match lit {
                Lit::Str(s) => {
                    let ghost mid0 = tape@;
                    let w = tape.write_str(s.inner.as_str());
                    proof {
                        lemma_write_str_preserves(mid0, s.inner@);
                    }
                    match w {
                        Some(_) => Ok(cur),
                        None => Err(CompileError::new(ErrorKind::TapeOverflow, s.span)),
                    }
                },
                other => {
                    let res = match expand_lit(other, curb, &symtab.blocks, tape) {
                        Ok(v) => v,
                        Err(e) => {
                            return Err(e);
                        },
                    };
                    let ghost mid = tape@;
                    let w = tape.write(res.inner);
                    proof {
                        lemma_write_preserves(mid, res.inner);
                    }
                    match w {
                        Some(_) => Ok(cur),
                        None => Err(CompileError::new(ErrorKind::TapeOverflow, res.span)),
                    }
                },
            }
        },
    }
}

/// Emits the statements from index `k` on, threading the active block.
fn emit_from(
    stmts: &Vec<Stmt>,
    k: usize,
    symtab: &SymTab,
    cur: Option<usize>,
    tape: &mut TapeWriter,
) -> (r: Result<(), CompileError>)
    requires
        k <= stmts@.len(),
        stmts_ok(stmt_views(stmts@)),
        tape_wf(old(tape)@),
        old(tape)@.tape.len() <= MAX_CAPACITY as int,
        ctx_wf(cur_idx_view(*symtab, cur), block_entry_views(symtab.blocks@)),
        cur_idx_ok(*symtab, cur),
    ensures
        tape_wf(final(tape)@),
        final(tape)@.tape.len() == old(tape)@.tape.len(),
        match r {
            Ok(_) => spec_emit(
                stmt_views(stmts@).skip(k as int),
                cur_idx_view(*symtab, cur),
                block_entry_views(symtab.blocks@),
                old(tape)@,
            ) matches Ok(p) && p.1 == final(tape)@,
            Err(e) => spec_emit(
                stmt_views(stmts@).skip(k as int),
                cur_idx_view(*symtab, cur),
                block_entry_views(symtab.blocks@),
                old(tape)@,
            ) == Err::<(Option<BlockV>, TapeSt), CompileError>(e),
        },
    decreases stmts@.len() - k,
{
    if k == stmts.len() {
        proof {
            assert(stmt_views(stmts@).skip(k as int) =~= Seq::<StmtV>::empty());
        }
        Ok(())
    } else {
        let ghost rest = stmt_views(stmts@).skip(k as int);
        proof {
            assert(rest[0] == stmts@[k as int]@);
            assert(rest.drop_first() =~= stmt_views(stmts@).skip(k as int + 1));
            assert(stmt_ok(stmt_views(stmts@)[k as int]));
        }
        match emit_stmt(&stmts[k], symtab, cur, tape) {
            Err(e) => Err(e),
            Ok(c2) => emit_from(stmts, k + 1, symtab, c2, tape),
        }
    }
}

/// The tape image builder: scans the desugared stream with the resolved symbol
/// table and the total code size, and produces the finished image of exactly
/// the configured capacity, or the first error.
pub fn emit(stmts: &Vec<Stmt>, symtab: &SymTab, capacity: usize) -> (r: Result<
    Vec<i32>,
    CompileError,
>)
    requires
        stmts_ok(stmt_views(stmts@)),
        symtab_wf(symtab@, MAX_CAPACITY as int),
        capacity <= MAX_CAPACITY,
    ensures
        match r {
            Ok(v) => {
                &&& spec_gen_tape(
                    stmt_views(stmts@),
                    block_entry_views(symtab.blocks@),
                    symtab@.code_size,
                    capacity as int,
                ) == Ok::<Seq<i32>, CompileError>(v@)
                &&& v@.len() == capacity as int
            },
            Err(e) => spec_gen_tape(
                stmt_views(stmts@),
                block_entry_views(symtab.blocks@),
                symtab@.code_size,
                capacity as int,
            ) == Err::<Seq<i32>, CompileError>(e),
        },
{
    let data_start = if symtab.code_size <= capacity {
        symtab.code_size
    } else {
        capacity
    };
    let mut tape = TapeWriter::new(capacity, data_start);
    proof {
        assert(tape@ =~= spec_tape_init(
            capacity as int,
            spec_data_start(symtab@.code_size, capacity as int),
        ));
        assert(stmt_views(stmts@).skip(0) =~= stmt_views(stmts@));
        assert forall|j: int|
            0 <= j < block_entry_views(symtab.blocks@).len() implies block_wf(
            (#[trigger] block_entry_views(symtab.blocks@)[j]).1,
            MAX_CAPACITY as int,
        ) by {
            assert(block_wf(symtab@.blocks[j].1, MAX_CAPACITY as int));
        }
    }
    match emit_from(stmts, 0, symtab, None, &mut tape) {
        Err(e) => Err(e),
        Ok(_) => Ok(tape.tape),
    }
}

/// The whole pipeline as one function over the statement views.
pub open spec fn spec_gen_code(stmts: Seq<StmtV>, cap: int) -> Result<Seq<i32>, CompileError> {
    let ds = spec_desugar(stmts, 0);
    match spec_symtab(ds) {
        Err(e) => Err(e),
        Ok(t) => spec_gen_tape(ds, t.blocks, t.code_size, cap),
    }
}

/// Compiles a whole program: desugars it, resolves its symbols, and builds the
/// tape image of exactly `capacity` cells, or fails with the first error.
pub fn gen_code(prog: &Prog, capacity: usize) -> (r: Result<Vec<i32>, CompileError>)
    requires
        capacity <= MAX_CAPACITY,
        stmts_depth_ok(stmt_views(prog.stmts@)),
        stmts_ok(stmt_views(prog.stmts@)),
        crate::ast::stmts_cells(spec_desugar(stmt_views(prog.stmts@), 0)) <= MAX_CAPACITY as int,
    ensures
        match r {
            Ok(v) => {
                &&& spec_gen_code(stmt_views(prog.stmts@), capacity as int) == Ok::<
                    Seq<i32>,
                    CompileError,
                >(v@)
                &&& v@.len() == capacity as int
            },
            Err(e) => spec_gen_code(stmt_views(prog.stmts@), capacity as int) == Err::<
                Seq<i32>,
                CompileError,
            >(e),
        },
{
    let ds = desugar_prog(prog);
    proof {
        crate::desugar::lemma_desugar_ok(stmt_views(prog.stmts@), 0);
    }
    let symtab = match resolve_symbols(&ds) {
        Ok(t) => t,
        Err(e) => {
            return Err(e);
        },
    };
    emit(&ds, &symtab, capacity)
}

} // verus!
