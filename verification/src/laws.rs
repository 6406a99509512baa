//! The library's general laws, stated over the same spec functions the
//! executable contracts use and proved once and for all.

use vstd::prelude::*;
use crate::ast::{ArgV, InstV, LitV, Op, Span, SpannedV, StmtV};
use crate::codegen::{spec_emit, spec_emit_arg, spec_emit_args, spec_emit_stmt, spec_expand_lit,
    spec_get_lbl, spec_tape_init};
use crate::desugar::{deref_depth, spec_cpy_stmt, spec_desugar, spec_desugar_arg,
    spec_desugar_args, spec_desugar_stmt, spec_solve_arg_deref};
use crate::error::{CompileError, ErrorKind};
use crate::labels::{spec_arg_name, spec_is_local};
use crate::symtab::{BlockV, assoc_find};
use crate::tape::{TapeSt, spec_val_at, tape_wf, tape_zeros};

verus! {

/// An argument with no dereference at its head.
pub open spec fn arg_no_deref(a: ArgV) -> bool {
    match a {
        ArgV::Lit(LitV::Deref(_)) => false,
        _ => true,
    }
}

pub open spec fn stmt_no_deref(s: StmtV) -> bool {
    match s {
        StmtV::Inst(i) => forall|j: int| 0 <= j < i.args.len() ==> #[trigger] arg_no_deref(i.args[j]),
        _ => true,
    }
}

pub open spec fn stmts_no_deref(ss: Seq<StmtV>) -> bool {
    forall|i: int| 0 <= i < ss.len() ==> #[trigger] stmt_no_deref(ss[i])
}

proof fn lemma_desugar_args_identity(args: Seq<ArgV>, pos: int)
    requires
        forall|j: int| 0 <= j < args.len() ==> #[trigger] arg_no_deref(args[j]),
    ensures
        spec_desugar_args(args, pos).0 == Seq::<StmtV>::empty(),
        spec_desugar_args(args, pos).1 == args,
    decreases args.len(),
{
    if args.len() == 0 {
        assert(spec_desugar_args(args, pos).1 =~= args);
    } else {
        assert(arg_no_deref(args[0]));
        let first = spec_desugar_arg(args[0], pos);
        assert(first == (Seq::<StmtV>::empty(), args[0]));
        lemma_desugar_args_identity(args.drop_first(), pos);
        assert(spec_desugar_args(args, pos).0 =~= Seq::<StmtV>::empty());
        assert(spec_desugar_args(args, pos).1 =~= args);
    }
}

proof fn lemma_desugar_stmt_identity(s: StmtV, pos: int)
    requires
        stmt_no_deref(s),
    ensures
        spec_desugar_stmt(s, pos) == seq![s],
{
    match s {
        StmtV::Inst(i) => {
            lemma_desugar_args_identity(i.args, pos);
            let d = spec_desugar_args(i.args, pos);
            assert(StmtV::Inst(InstV { op: i.op, args: d.1, span: i.span }) =~~= s);
            assert(spec_desugar_stmt(s, pos) =~= seq![s]);
        },
        _ => {},
    }
}

/// Desugaring is idempotent on programs with no dereference in argument
/// position: the output stream equals the input stream.
pub proof fn lemma_desugar_identity(stmts: Seq<StmtV>, pos: int)
    requires
        stmts_no_deref(stmts),
    ensures
        spec_desugar(stmts, pos) == stmts,
    decreases stmts.len(),
{
    if stmts.len() == 0 {
        assert(spec_desugar(stmts, pos) =~= stmts);
    } else {
        assert(stmt_no_deref(stmts[0]));
        lemma_desugar_stmt_identity(stmts[0], pos);
        lemma_desugar_identity(stmts.drop_first(), pos + 1);
        assert(spec_desugar(stmts, pos) =~= seq![stmts[0]] + stmts.drop_first());
        assert(seq![stmts[0]] + stmts.drop_first() =~= stmts);
    }
}

proof fn lemma_solve_no_deref(d: LitV, lbl: SpannedV<Seq<char>>, pos: int, depth: int)
    ensures
        stmts_no_deref(spec_solve_arg_deref(d, lbl, pos, depth)),
    decreases d,
{
    match d {
        LitV::Deref(inner) => {
            let span = crate::ast::spec_lit_span(*inner);
            let cpy_lbl = SpannedV { inner: crate::labels::spec_cpy_name(pos, depth + 1), span };
            lemma_solve_no_deref(*inner, cpy_lbl, pos, depth + 1);
            let prefix = spec_solve_arg_deref(*inner, cpy_lbl, pos, depth + 1);
            let s = spec_cpy_stmt(ArgV::Lbl(cpy_lbl), lbl, span);
            assert(stmt_no_deref(s));
            assert forall|j: int|
                0 <= j < prefix.push(s).len() implies #[trigger] stmt_no_deref(
                prefix.push(s)[j],
            ) by {
                if j < prefix.len() {
                    assert(prefix.push(s)[j] == prefix[j]);
                }
            }
        },
        _ => {
            let s = spec_cpy_stmt(ArgV::Lit(d), lbl, crate::ast::spec_lit_span(d));
            assert(stmt_no_deref(s));
        },
    }
}

proof fn lemma_desugar_arg_no_deref(a: ArgV, pos: int)
    ensures
        stmts_no_deref(spec_desugar_arg(a, pos).0),
        arg_no_deref(spec_desugar_arg(a, pos).1),
{
    match a {
        ArgV::Lit(l) => match l {
            LitV::Deref(d) => {
                let lbl = SpannedV {
                    inner: spec_arg_name(pos, 0),
                    span: crate::ast::spec_lit_span(*d),
                };
                lemma_solve_no_deref(*d, lbl, pos, 0);
            },
            _ => {},
        },
        _ => {},
    }
}

proof fn lemma_desugar_args_no_deref(args: Seq<ArgV>, pos: int)
    ensures
        stmts_no_deref(spec_desugar_args(args, pos).0),
        forall|j: int|
            0 <= j < spec_desugar_args(args, pos).1.len() ==> #[trigger] arg_no_deref(
                spec_desugar_args(args, pos).1[j],
            ),
    decreases args.len(),
{
    if args.len() == 0 {
    } else {
        let first = spec_desugar_arg(args[0], pos);
        lemma_desugar_arg_no_deref(args[0], pos);
        lemma_desugar_args_no_deref(args.drop_first(), pos + first.0.len());
        let rest = spec_desugar_args(args.drop_first(), pos + first.0.len());
        assert forall|i: int|
            0 <= i < (first.0 + rest.0).len() implies #[trigger] stmt_no_deref(
            (first.0 + rest.0)[i],
        ) by {
            if i < first.0.len() {
                assert((first.0 + rest.0)[i] == first.0[i]);
            } else {
                assert((first.0 + rest.0)[i] == rest.0[i - first.0.len()]);
            }
        }
        assert forall|i: int|
            0 <= i < (seq![first.1] + rest.1).len() implies #[trigger] arg_no_deref(
            (seq![first.1] + rest.1)[i],
        ) by {
            if i > 0 {
                assert((seq![first.1] + rest.1)[i] == rest.1[i - 1]);
            }
        }
    }
}

proof fn lemma_desugar_stmt_no_deref(s: StmtV, pos: int)
    ensures
        stmts_no_deref(spec_desugar_stmt(s, pos)),
{
    match s {
        StmtV::Inst(i) => {
            lemma_desugar_args_no_deref(i.args, pos);
            let d = spec_desugar_args(i.args, pos);
            let tail = StmtV::Inst(InstV { op: i.op, args: d.1, span: i.span });
            assert(stmt_no_deref(tail));
            assert forall|j: int|
                0 <= j < d.0.push(tail).len() implies #[trigger] stmt_no_deref(
                d.0.push(tail)[j],
            ) by {
                if j < d.0.len() {
                    assert(d.0.push(tail)[j] == d.0[j]);
                }
            }
        },
        _ => {
            assert forall|j: int|
                0 <= j < seq![s].len() implies #[trigger] stmt_no_deref(seq![s][j]) by {
                assert(seq![s][j] == s);
            }
        },
    }
}

/// The desugaring engine's contract from the design: whatever the input, the
/// output stream carries no dereference in argument position any more.
pub proof fn lemma_desugar_no_deref(stmts: Seq<StmtV>, pos: int)
    ensures
        stmts_no_deref(spec_desugar(stmts, pos)),
    decreases stmts.len(),
{
    if stmts.len() == 0 {
    } else {
        let first = spec_desugar_stmt(stmts[0], pos);
        lemma_desugar_stmt_no_deref(stmts[0], pos);
        lemma_desugar_no_deref(stmts.drop_first(), pos + first.len());
        let rest = spec_desugar(stmts.drop_first(), pos + first.len());
        assert forall|i: int|
            0 <= i < (first + rest).len() implies #[trigger] stmt_no_deref((first + rest)[i]) by {
            if i < first.len() {
                assert((first + rest)[i] == first[i]);
            } else {
                assert((first + rest)[i] == rest[i - first.len()]);
            }
        }
    }
}

/// Desugaring is idempotent: running the engine over its own output changes
/// nothing, at whatever position the second run starts.
pub proof fn lemma_desugar_idempotent(stmts: Seq<StmtV>, pos: int, pos2: int)
    ensures
        spec_desugar(spec_desugar(stmts, pos), pos2) == spec_desugar(stmts, pos),
{
    lemma_desugar_no_deref(stmts, pos);
    lemma_desugar_identity(spec_desugar(stmts, pos), pos2);
}

/// The expression at the bottom of a dereference chain.
pub open spec fn chain_base(l: LitV) -> LitV
    decreases l,
{
    match l {
        LitV::Deref(inner) => chain_base(*inner),
        _ => l,
    }
}

/// A synthetic copy instruction: `Cpy` with its two argument cells.
pub open spec fn is_cpy2(s: StmtV) -> bool {
    match s {
        StmtV::Inst(i) => i.op == Op::Cpy && i.args.len() == 2,
        _ => false,
    }
}

proof fn lemma_solve_chain(d: LitV, lbl: SpannedV<Seq<char>>, pos: int, depth: int)
    ensures
        ({
            let out = spec_solve_arg_deref(d, lbl, pos, depth);
            &&& out.len() == deref_depth(d) + 1
            &&& forall|j: int| 0 <= j < out.len() ==> #[trigger] is_cpy2(out[j])
            &&& out[0] == spec_cpy_stmt(
                ArgV::Lit(chain_base(d)),
                match out[0] {
                    StmtV::Inst(i0) => match i0.args[1] {
                        ArgV::Lit(LitV::Lbl(l0)) => l0,
                        _ => lbl,
                    },
                    _ => lbl,
                },
                crate::ast::spec_lit_span(chain_base(d)),
            )
            &&& match out.last() {
                StmtV::Inst(ilast) => ilast.args[1] == ArgV::Lit(LitV::Lbl(lbl)),
                _ => false,
            }
        }),
    decreases d,
{
    match d {
        LitV::Deref(inner) => {
            let span = crate::ast::spec_lit_span(*inner);
            let cpy_lbl = SpannedV { inner: crate::labels::spec_cpy_name(pos, depth + 1), span };
            lemma_solve_chain(*inner, cpy_lbl, pos, depth + 1);
            let prefix = spec_solve_arg_deref(*inner, cpy_lbl, pos, depth + 1);
            let s = spec_cpy_stmt(ArgV::Lbl(cpy_lbl), lbl, span);
            let out = prefix.push(s);
            assert(is_cpy2(s));
            assert forall|j: int| 0 <= j < out.len() implies #[trigger] is_cpy2(out[j]) by {
                if j < prefix.len() {
                    assert(out[j] == prefix[j]);
                }
            }
            assert(out[0] == prefix[0]);
        },
        _ => {
            let out = spec_solve_arg_deref(d, lbl, pos, depth);
            assert(out[0] == spec_cpy_stmt(ArgV::Lit(d), lbl, crate::ast::spec_lit_span(d)));
            assert(out.last() == out[0]);
        },
    }
}

/// A chain of `n` nested dereferences in argument position expands into
/// exactly `n` synthetic `Cpy` instructions. The innermost dereference is
/// evaluated first: the first emitted copy's source operand is the expression
/// at the bottom of the chain. The last copy writes into the fresh synthetic
/// label, and the instruction's rewritten argument is a bare reference to that
/// label.
pub proof fn lemma_arg_deref_expansion(d: LitV, pos: int)
    ensures
        ({
            let a = ArgV::Lit(LitV::Deref(Box::new(d)));
            let r = spec_desugar_arg(a, pos);
            let lbl = SpannedV {
                inner: spec_arg_name(pos, 0),
                span: crate::ast::spec_lit_span(d),
            };
            &&& r.0.len() == deref_depth(d) + 1
            &&& forall|j: int| 0 <= j < r.0.len() ==> #[trigger] is_cpy2(r.0[j])
            &&& match r.0[0] {
                StmtV::Inst(i0) => i0.args[0] == ArgV::Lit(chain_base(d)),
                _ => false,
            }
            &&& match r.0.last() {
                StmtV::Inst(ilast) => ilast.args[1] == ArgV::Lit(LitV::Lbl(lbl)),
                _ => false,
            }
            &&& r.1 == ArgV::Lbl(lbl)
        }),
{
    let a = ArgV::Lit(LitV::Deref(Box::new(d)));
    let lbl = SpannedV { inner: spec_arg_name(pos, 0), span: crate::ast::spec_lit_span(d) };
    lemma_solve_chain(d, lbl, pos, 0);
}

/// The emitted image of a desugared dereference argument. The desugarer turns
/// `op *'src` into the pair `cpy 'src ':l ; op <l>`; emitting that pair under
/// any active block writes five cells: the copy's encoding, the resolved
/// address `a` of the dereferenced label as its source operand, the resolved
/// offset `slot` of the synthetic label as its destination operand, the
/// instruction's encoding, and `slot` again in the instruction's operand
/// cell. The resolver registers the synthetic label at the operand cell's own
/// offset, so the copy's destination is that very cell: at run time the copy
/// moves the *value* stored at `a` into the operand cell, and the image never
/// places the address `a` there.
pub proof fn lemma_deref_argument_emission(
    src: SpannedV<Seq<char>>,
    l: SpannedV<Seq<char>>,
    op: Op,
    sp0: Span,
    sp1: Span,
    cur: Option<BlockV>,
    blocks: Seq<(Seq<char>, BlockV)>,
    t: TapeSt,
)
    requires
        tape_wf(t),
        ({
            let s0 = spec_cpy_stmt(ArgV::Lit(LitV::Lbl(src)), l, sp0);
            let s1 = StmtV::Inst(InstV { op, args: seq![ArgV::Lbl(l)], span: sp1 });
            spec_emit(seq![s0, s1], cur, blocks, t) is Ok
        }),
    ensures
        spec_get_lbl(src.inner, src.span, cur, blocks) is Ok,
        spec_get_lbl(l.inner, l.span, cur, blocks) is Ok,
        ({
            let s0 = spec_cpy_stmt(ArgV::Lit(LitV::Lbl(src)), l, sp0);
            let s1 = StmtV::Inst(InstV { op, args: seq![ArgV::Lbl(l)], span: sp1 });
            let a = spec_get_lbl(src.inner, src.span, cur, blocks).unwrap().0;
            let slot = spec_get_lbl(l.inner, l.span, cur, blocks).unwrap().0;
            let p = spec_emit(seq![s0, s1], cur, blocks, t).unwrap();
            &&& p.1.idx == t.idx + 5
            &&& p.1.tape[t.idx] == crate::ast::spec_encoding(Op::Cpy)
            &&& p.1.tape[t.idx + 1] == a
            &&& p.1.tape[t.idx + 2] == slot
            &&& p.1.tape[t.idx + 3] == crate::ast::spec_encoding(op)
            &&& p.1.tape[t.idx + 4] == slot
        }),
{
    reveal_with_fuel(spec_emit, 4);
    reveal_with_fuel(crate::codegen::spec_emit_args, 4);
    let s0 = spec_cpy_stmt(ArgV::Lit(LitV::Lbl(src)), l, sp0);
    let s1 = StmtV::Inst(InstV { op, args: seq![ArgV::Lbl(l)], span: sp1 });
    let pair = seq![s0, s1];
    assert(pair[0] == s0);
    assert(pair.drop_first() =~= seq![s1]);
    assert(seq![s1][0] == s1);
    assert(seq![s1].drop_first() =~= Seq::<StmtV>::empty());
    let args0 = seq![ArgV::Lit(LitV::Lbl(src)), ArgV::Lit(LitV::Lbl(l))];
    assert(args0[0] == ArgV::Lit(LitV::Lbl(src)));
    assert(args0.drop_first() =~= seq![ArgV::Lit(LitV::Lbl(l))]);
    assert(seq![ArgV::Lit(LitV::Lbl(l))][0] == ArgV::Lit(LitV::Lbl(l)));
    assert(seq![ArgV::Lit(LitV::Lbl(l))].drop_first() =~= Seq::<ArgV>::empty());
    let args1 = seq![ArgV::Lbl(l)];
    assert(args1[0] == ArgV::Lbl(l));
    assert(args1.drop_first() =~= Seq::<ArgV>::empty());

    // the first statement: cpy 'src ':l
    match crate::tape::spec_write(t, crate::ast::spec_encoding(Op::Cpy)) {
        None => {
            assert(false);
        },
        Some(w0) => {
            crate::tape::lemma_write_preserves(t, crate::ast::spec_encoding(Op::Cpy));
            let t1 = w0.1;
            match spec_get_lbl(src.inner, src.span, cur, blocks) {
                Err(_) => {
                    assert(false);
                },
                Ok(av) => {
                    match crate::tape::spec_write(t1, av.0) {
                        None => {
                            assert(false);
                        },
                        Some(w1) => {
                            crate::tape::lemma_write_preserves(t1, av.0);
                            let t2 = w1.1;
                            match spec_get_lbl(l.inner, l.span, cur, blocks) {
                                Err(_) => {
                                    assert(false);
                                },
                                Ok(lv) => {
                                    match crate::tape::spec_write(t2, lv.0) {
                                        None => {
                                            assert(false);
                                        },
                                        Some(w2) => {
                                            crate::tape::lemma_write_preserves(t2, lv.0);
                                            let t3 = w2.1;
                                            assert(spec_emit_stmt(s0, cur, blocks, t) == Ok::<
                                                (Option<BlockV>, TapeSt),
                                                CompileError,
                                            >((cur, t3)));
                                            // the second statement: op <l>
                                            match crate::tape::spec_write(
                                                t3,
                                                crate::ast::spec_encoding(op),
                                            ) {
                                                None => {
                                                    assert(false);
                                                },
                                                Some(w3) => {
                                                    crate::tape::lemma_write_preserves(
                                                        t3,
                                                        crate::ast::spec_encoding(op),
                                                    );
                                                    let t4 = w3.1;
                                                    match crate::tape::spec_write(t4, lv.0) {
                                                        None => {
                                                            assert(false);
                                                        },
                                                        Some(w4) => {
                                                            crate::tape::lemma_write_preserves(
                                                                t4,
                                                                lv.0,
                                                            );
                                                            let t5 = w4.1;
                                                            assert(spec_emit_stmt(
                                                                s1,
                                                                cur,
                                                                blocks,
                                                                t3,
                                                            ) == Ok::<
                                                                (Option<BlockV>, TapeSt),
                                                                CompileError,
                                                            >((cur, t5)));
                                                            assert(spec_emit(
                                                                pair,
                                                                cur,
                                                                blocks,
                                                                t,
                                                            ) == Ok::<
                                                                (Option<BlockV>, TapeSt),
                                                                CompileError,
                                                            >((cur, t5)));
                                                        },
                                                    }
                                                },
                                            }
                                        },
                                    }
                                },
                            }
                        },
                    }
                },
            }
        },
    }
}

/// Local labels are invisible outside their own block: while another block is
/// active, a local name missing from that block's table fails
/// `UndefinedLabel`, whatever any other block declares.
pub proof fn lemma_local_labels_scoped(
    name: Seq<char>,
    span: Span,
    cur: BlockV,
    blocks: Seq<(Seq<char>, BlockV)>,
)
    requires
        spec_is_local(name),
        assoc_find(cur.labels, name) is None,
    ensures
        spec_get_lbl(name, span, Some(cur), blocks) == Err::<(i32, Span), CompileError>(
            CompileError { kind: ErrorKind::UndefinedLabel, span },
        ),
{
}

/// Last definition wins: the block recorded last under a name supersedes every
/// earlier block recorded under the same name, and leaves other names alone.
pub proof fn lemma_last_definition_wins<V>(s: Seq<(Seq<char>, V)>, k: Seq<char>, v: V)
    ensures
        assoc_find(s.push((k, v)), k) == Some(v),
        forall|k2: Seq<char>|
            k2 != k ==> #[trigger] assoc_find(s.push((k, v)), k2) == assoc_find(s, k2),
{
    assert(s.push((k, v)).last() == (k, v));
    assert forall|k2: Seq<char>|
        k2 != k implies #[trigger] assoc_find(s.push((k, v)), k2) == assoc_find(s, k2) by {
        assert(s.push((k, v)).drop_last() =~= s);
    }
}

/// A reference to a string allocates one data cell per character, in order,
/// and resolves to the address of the first.
pub proof fn lemma_ref_string_allocation(
    s: SpannedV<Seq<char>>,
    cur: Option<BlockV>,
    blocks: Seq<(Seq<char>, BlockV)>,
    t: TapeSt,
)
    requires
        tape_wf(t),
        t.data_idx + s.inner.len() <= t.tape.len(),
    ensures
        ({
            let r = spec_expand_lit(LitV::Ref(Box::new(LitV::Str(s))), cur, blocks, t);
            &&& r matches Ok(v)
            &&& r.unwrap().0 == t.data_idx as i32
            &&& r.unwrap().2.data_idx == t.data_idx + s.inner.len()
            &&& forall|j: int|
                0 <= j < s.inner.len() ==> r.unwrap().2.tape[t.data_idx + j]
                    == crate::tape::char_val(s.inner[j])
            &&& forall|j: int|
                0 <= j < t.data_idx ==> r.unwrap().2.tape[j] == t.tape[j]
        }),
{
}

/// Dereferencing an address this pass has not written yet (a textually forward
/// reference) fails `UnresolvedCompileTimeDeref`.
pub proof fn lemma_forward_deref_fails(
    inner: LitV,
    cur: Option<BlockV>,
    blocks: Seq<(Seq<char>, BlockV)>,
    t: TapeSt,
)
    requires
        spec_expand_lit(inner, cur, blocks, t) matches Ok(r) && spec_val_at(
            r.2,
            r.0 as int,
        ) is None,
    ensures
        spec_expand_lit(LitV::Deref(Box::new(inner)), cur, blocks, t) == Err::<
            (i32, Span, TapeSt),
            CompileError,
        >(
            CompileError {
                kind: ErrorKind::UnresolvedCompileTimeDeref,
                span: spec_expand_lit(inner, cur, blocks, t).unwrap().1,
            },
        ),
{
    let r = spec_expand_lit(inner, cur, blocks, t).unwrap();
    if 0 <= r.0 {
    } else {
        assert(spec_val_at(r.2, r.0 as int) is None);
    }
}

/// Dereferencing an address written earlier in the pass succeeds and yields
/// the previously written cell value.
pub proof fn lemma_backward_deref_succeeds(
    inner: LitV,
    cur: Option<BlockV>,
    blocks: Seq<(Seq<char>, BlockV)>,
    t: TapeSt,
)
    requires
        spec_expand_lit(inner, cur, blocks, t) matches Ok(r) && 0 <= r.0 && spec_val_at(
            r.2,
            r.0 as int,
        ) is Some,
    ensures
        ({
            let r = spec_expand_lit(inner, cur, blocks, t).unwrap();
            spec_expand_lit(LitV::Deref(Box::new(inner)), cur, blocks, t) == Ok::<
                (i32, Span, TapeSt),
                CompileError,
            >((r.2.tape[r.0 as int], r.1, r.2))
        }),
{
}

/// How many tape cells one statement of the desugared stream occupies.
pub open spec fn stmt_cells(s: StmtV) -> int {
    match s {
        StmtV::Label(_) => 0,
        StmtV::Inst(i) => 1 + i.args.len() as int,
        StmtV::Lit(l) => crate::ast::spec_lit_size(l) as int,
    }
}

proof fn lemma_emit_arg_preserves(
    a: ArgV,
    cur: Option<BlockV>,
    blocks: Seq<(Seq<char>, BlockV)>,
    t: TapeSt,
)
    requires
        tape_wf(t),
    ensures
        match spec_emit_arg(a, cur, blocks, t) {
            Ok(t2) => {
                &&& tape_wf(t2)
                &&& (tape_zeros(t) ==> tape_zeros(t2))
                &&& t2.tape.len() == t.tape.len()
                &&& t2.data_start == t.data_start
                &&& t2.idx == t.idx + 1
                &&& forall|j: int| 0 <= j < t.idx ==> t2.tape[j] == t.tape[j]
            },
            Err(_) => true,
        },
{
    match a {
        ArgV::Lbl(l) => {
            match spec_get_lbl(l.inner, l.span, cur, blocks) {
                Ok(v) => {
                    crate::tape::lemma_write_preserves(t, v.0);
                },
                Err(_) => {},
            }
        },
        ArgV::Lit(l) => {
            crate::codegen::lemma_expand_preserves(l, cur, blocks, t);
            match spec_expand_lit(l, cur, blocks, t) {
                Ok(r) => {
                    crate::tape::lemma_write_preserves(r.2, r.0);
                },
                Err(_) => {},
            }
        },
    }
}

proof fn lemma_emit_args_preserves(
    args: Seq<ArgV>,
    cur: Option<BlockV>,
    blocks: Seq<(Seq<char>, BlockV)>,
    t: TapeSt,
)
    requires
        tape_wf(t),
    ensures
        match spec_emit_args(args, cur, blocks, t) {
            Ok(t2) => {
                &&& tape_wf(t2)
                &&& (tape_zeros(t) ==> tape_zeros(t2))
                &&& t2.tape.len() == t.tape.len()
                &&& t2.data_start == t.data_start
                &&& t2.idx == t.idx + args.len()
                &&& forall|j: int| 0 <= j < t.idx ==> t2.tape[j] == t.tape[j]
            },
            Err(_) => true,
        },
    decreases args.len(),
{
    if args.len() == 0 {
    } else {
        lemma_emit_arg_preserves(args[0], cur, blocks, t);
        match spec_emit_arg(args[0], cur, blocks, t) {
            Ok(t1) => {
                lemma_emit_args_preserves(args.drop_first(), cur, blocks, t1);
            },
            Err(_) => {},
        }
    }
}

proof fn lemma_emit_stmt_preserves(
    s: StmtV,
    cur: Option<BlockV>,
    blocks: Seq<(Seq<char>, BlockV)>,
    t: TapeSt,
)
    requires
        tape_wf(t),
    ensures
        match spec_emit_stmt(s, cur, blocks, t) {
            Ok(p) => {
                &&& tape_wf(p.1)
                &&& (tape_zeros(t) ==> tape_zeros(p.1))
                &&& p.1.tape.len() == t.tape.len()
                &&& p.1.data_start == t.data_start
                &&& p.1.idx == t.idx + stmt_cells(s)
                &&& (forall|j: int| 0 <= j < t.idx ==> p.1.tape[j] == t.tape[j])
                &&& match s {
                    StmtV::Inst(i) => p.1.tape[t.idx] == crate::ast::spec_encoding(i.op),
                    _ => true,
                }
            },
            Err(_) => true,
        },
{
    match s {
        StmtV::Label(_) => {},
        StmtV::Inst(i) => {
            crate::tape::lemma_write_preserves(t, crate::ast::spec_encoding(i.op));
            match crate::tape::spec_write(t, crate::ast::spec_encoding(i.op)) {
                Some(w) => {
                    lemma_emit_args_preserves(i.args, cur, blocks, w.1);
                },
                None => {},
            }
        },
        StmtV::Lit(l) => match l {
            LitV::Str(str_lit) => {
                crate::tape::lemma_write_str_preserves(t, str_lit.inner);
            },
            _ => {
                crate::codegen::lemma_expand_preserves(l, cur, blocks, t);
                match spec_expand_lit(l, cur, blocks, t) {
                    Ok(r) => {
                        crate::tape::lemma_write_preserves(r.2, r.0);
                    },
                    Err(_) => {},
                }
            },
        },
    }
}

proof fn lemma_emit_preserves(
    stmts: Seq<StmtV>,
    cur: Option<BlockV>,
    blocks: Seq<(Seq<char>, BlockV)>,
    t: TapeSt,
)
    requires
        tape_wf(t),
    ensures
        match spec_emit(stmts, cur, blocks, t) {
            Ok(p) => {
                &&& tape_wf(p.1)
                &&& (tape_zeros(t) ==> tape_zeros(p.1))
                &&& p.1.tape.len() == t.tape.len()
                &&& p.1.data_start == t.data_start
                &&& p.1.idx >= t.idx
                &&& forall|j: int| 0 <= j < t.idx ==> p.1.tape[j] == t.tape[j]
            },
            Err(_) => true,
        },
    decreases stmts.len(),
{
    if stmts.len() == 0 {
    } else {
        lemma_emit_stmt_preserves(stmts[0], cur, blocks, t);
        match spec_emit_stmt(stmts[0], cur, blocks, t) {
            Ok(p) => {
                lemma_emit_preserves(stmts.drop_first(), p.0, blocks, p.1);
            },
            Err(_) => {},
        }
    }
}

/// For every program the emitter accepts, the finished image keeps its
/// configured length, the cursors never cross, and every cell beyond the
/// highest write still holds its initial zero.
pub proof fn lemma_emit_len_and_zeros(
    stmts: Seq<StmtV>,
    blocks: Seq<(Seq<char>, BlockV)>,
    data_start: int,
    cap: int,
)
    requires
        0 <= data_start <= cap,
    ensures
        match spec_emit(stmts, None, blocks, spec_tape_init(cap, data_start)) {
            Ok(p) => {
                &&& p.1.tape.len() == cap
                &&& tape_wf(p.1)
                &&& tape_zeros(p.1)
            },
            Err(_) => true,
        },
{
    let t = spec_tape_init(cap, data_start);
    assert(tape_wf(t));
    assert(tape_zeros(t));
    lemma_emit_preserves(stmts, None, blocks, t);
}

proof fn lemma_resolve_args_off(args: Seq<ArgV>, st: crate::symtab::ResolveSt)
    ensures
        match crate::symtab::spec_resolve_args(args, st) {
            Ok(st2) => st2.off == st.off + args.len(),
            Err(_) => true,
        },
    decreases args.len(),
{
    if args.len() == 0 {
    } else {
        match args[0] {
            ArgV::Lbl(l) => match st.cur {
                None => {},
                Some(c) => {
                    lemma_resolve_args_off(
                        args.drop_first(),
                        crate::symtab::ResolveSt {
                            cur: Some(
                                (
                                    c.0,
                                    BlockV {
                                        start: c.1.start,
                                        labels: c.1.labels.push((l.inner, st.off)),
                                    },
                                ),
                            ),
                            blocks: st.blocks,
                            off: st.off + 1,
                        },
                    );
                },
            },
            ArgV::Lit(_) => {
                lemma_resolve_args_off(
                    args.drop_first(),
                    crate::symtab::ResolveSt { off: st.off + 1, ..st },
                );
            },
        }
    }
}

proof fn lemma_resolve_stmt_off(s: StmtV, st: crate::symtab::ResolveSt)
    ensures
        match crate::symtab::spec_resolve_stmt(s, st) {
            Ok(st2) => st2.off == st.off + stmt_cells(s),
            Err(_) => true,
        },
{
    match s {
        StmtV::Inst(i) => {
            lemma_resolve_args_off(i.args, crate::symtab::ResolveSt { off: st.off + 1, ..st });
        },
        _ => {},
    }
}

/// A successful resolution pass advances the offset by exactly the stream's
/// total cell footprint.
pub proof fn lemma_resolve_off_total(stmts: Seq<StmtV>, st: crate::symtab::ResolveSt)
    ensures
        match crate::symtab::spec_resolve(stmts, st) {
            Ok(st2) => st2.off == st.off + crate::ast::stmts_cells(stmts),
            Err(_) => true,
        },
    decreases stmts.len(),
{
    if stmts.len() == 0 {
    } else {
        lemma_resolve_stmt_off(stmts[0], st);
        match crate::symtab::spec_resolve_stmt(stmts[0], st) {
            Err(_) => {},
            Ok(st2) => {
                lemma_resolve_off_total(stmts.drop_first(), st2);
            },
        }
    }
}

/// The two passes over the desugared stream advance in lockstep: when both
/// the resolver and the emitter accept the stream, the emitter's main cursor
/// ends exactly where the resolver's running offset ends. Each statement
/// contributes the same cell count to both.
pub proof fn lemma_passes_agree(
    stmts: Seq<StmtV>,
    st_r: crate::symtab::ResolveSt,
    cur: Option<BlockV>,
    blocks: Seq<(Seq<char>, BlockV)>,
    t: TapeSt,
)
    requires
        tape_wf(t),
        t.idx == st_r.off,
        crate::symtab::spec_resolve(stmts, st_r) is Ok,
        spec_emit(stmts, cur, blocks, t) is Ok,
    ensures
        spec_emit(stmts, cur, blocks, t).unwrap().1.idx == crate::symtab::spec_resolve(
            stmts,
            st_r,
        ).unwrap().off,
    decreases stmts.len(),
{
    if stmts.len() == 0 {
    } else {
        lemma_resolve_stmt_off(stmts[0], st_r);
        lemma_emit_stmt_preserves(stmts[0], cur, blocks, t);
        match crate::symtab::spec_resolve_stmt(stmts[0], st_r) {
            Err(_) => {},
            Ok(st2) => match spec_emit_stmt(stmts[0], cur, blocks, t) {
                Err(_) => {},
                Ok(p) => {
                    lemma_passes_agree(stmts.drop_first(), st2, p.0, blocks, p.1);
                },
            },
        }
    }
}

/// When the whole pipeline succeeds, the emitter fills the code region
/// exactly: its main cursor ends at the resolver's total code size, which is
/// where the data region begins, so the two regions meet with no gap, the
/// cursors never cross, and the code alone fits the capacity.
pub proof fn lemma_code_region_filled(stmts: Seq<StmtV>, cap: int)
    requires
        0 <= cap,
        crate::symtab::spec_symtab(stmts) is Ok,
        ({
            let t = crate::symtab::spec_symtab(stmts).unwrap();
            spec_emit(
                stmts,
                None,
                t.blocks,
                spec_tape_init(cap, crate::codegen::spec_data_start(t.code_size, cap)),
            ) is Ok
        }),
    ensures
        ({
            let t = crate::symtab::spec_symtab(stmts).unwrap();
            let p = spec_emit(
                stmts,
                None,
                t.blocks,
                spec_tape_init(cap, crate::codegen::spec_data_start(t.code_size, cap)),
            ).unwrap();
            &&& p.1.idx == t.code_size
            &&& p.1.data_start == t.code_size
            &&& t.code_size <= cap
        }),
{
    let t = crate::symtab::spec_symtab(stmts).unwrap();
    let st0 = crate::symtab::spec_resolve_init();
    lemma_resolve_off_total(stmts, st0);
    crate::ast::lemma_stmts_cells_nonneg(stmts);
    assert(0 <= t.code_size);
    let init = spec_tape_init(cap, crate::codegen::spec_data_start(t.code_size, cap));
    assert(tape_wf(init));
    lemma_passes_agree(stmts, st0, None, t.blocks, init);
    lemma_emit_preserves(stmts, None, t.blocks, init);
}

/// A program whose code needs more cells than the configured capacity can
/// never produce a tape: by `spec_emit_stmt`'s definition the emitter fails
/// with `TapeOverflow` at the first write past the capacity, so the pipeline
/// never returns `Ok`.
pub proof fn lemma_overflowing_program_fails(stmts: Seq<StmtV>, cap: int)
    requires
        0 <= cap,
        crate::symtab::spec_symtab(spec_desugar(stmts, 0)) matches Ok(t) && t.code_size > cap,
    ensures
        !(crate::codegen::spec_gen_code(stmts, cap) is Ok),
{
    let ds = spec_desugar(stmts, 0);
    if crate::codegen::spec_gen_code(stmts, cap) is Ok {
        lemma_code_region_filled(ds, cap);
        assert(false);
    }
}

/// The cells of `v` from position `d` on all hold zero.
/// For every program the pipeline accepts, the output tape has exactly the
/// configured capacity and all cells beyond the highest write are left at
/// zero, with the bound named exactly: the code region is filled to the
/// computed code size, the data cells follow it up to the final data cursor,
/// and every cell from that cursor to the end of the tape holds zero. In
/// particular a program that needs more cells than the capacity can never
/// reach `Ok`.
pub proof fn lemma_gen_code_zero_fill(stmts: Seq<StmtV>, cap: int)
    requires
        0 <= cap,
        crate::codegen::spec_gen_code(stmts, cap) is Ok,
    ensures
        ({
            let v = crate::codegen::spec_gen_code(stmts, cap).unwrap();
            let ds = spec_desugar(stmts, 0);
            let t = crate::symtab::spec_symtab(ds).unwrap();
            let p = spec_emit(
                ds,
                None,
                t.blocks,
                spec_tape_init(cap, crate::codegen::spec_data_start(t.code_size, cap)),
            ).unwrap();
            &&& v.len() == cap
            &&& v == p.1.tape
            &&& p.1.idx == t.code_size
            &&& p.1.data_start == t.code_size
            &&& t.code_size <= p.1.data_idx <= cap
            &&& forall|i: int| p.1.data_idx <= i < cap ==> v[i] == 0
        }),
{
    let ds = spec_desugar(stmts, 0);
    let t = crate::symtab::spec_symtab(ds).unwrap();
    let st0 = crate::symtab::spec_resolve_init();
    lemma_resolve_off_total(ds, st0);
    crate::ast::lemma_stmts_cells_nonneg(ds);
    let d0 = crate::codegen::spec_data_start(t.code_size, cap);
    assert(0 <= d0 <= cap);
    let p = spec_emit(ds, None, t.blocks, spec_tape_init(cap, d0)).unwrap();
    lemma_emit_len_and_zeros(ds, t.blocks, d0, cap);
    lemma_code_region_filled(ds, cap);
    let v = crate::codegen::spec_gen_code(stmts, cap).unwrap();
    assert(v == p.1.tape);
}

/// Splitting an emission run at any point composes: emit the prefix, then the
/// suffix from the state the prefix reached.
proof fn lemma_emit_split(
    stmts: Seq<StmtV>,
    k: int,
    cur: Option<BlockV>,
    blocks: Seq<(Seq<char>, BlockV)>,
    t: TapeSt,
)
    requires
        0 <= k <= stmts.len(),
    ensures
        spec_emit(stmts, cur, blocks, t) == (match spec_emit(stmts.take(k), cur, blocks, t) {
            Err(e) => Err(e),
            Ok(m) => spec_emit(stmts.skip(k), m.0, blocks, m.1),
        }),
    decreases k,
{
    if k == 0 {
        assert(stmts.take(0) =~= Seq::<StmtV>::empty());
        assert(stmts.skip(0) =~= stmts);
    } else {
        assert(stmts.take(k)[0] == stmts[0]);
        match spec_emit_stmt(stmts[0], cur, blocks, t) {
            Err(e) => {},
            Ok(p) => {
                lemma_emit_split(stmts.drop_first(), k - 1, p.0, blocks, p.1);
                assert(stmts.take(k).drop_first() =~= stmts.drop_first().take(k - 1));
                assert(stmts.skip(k) =~= stmts.drop_first().skip(k - 1));
            },
        }
    }
}

/// For every instruction of a successfully emitted stream: the cell at the
/// offset where its emission began holds its opcode's encoding in the final
/// image, its argument cells follow contiguously, one per argument in source
/// order, so the instruction occupies exactly `1 + N` cells, and none of
/// those cells is overwritten later in the pass.
pub proof fn lemma_instruction_layout(
    stmts: Seq<StmtV>,
    cur: Option<BlockV>,
    blocks: Seq<(Seq<char>, BlockV)>,
    t: TapeSt,
    k: int,
)
    requires
        tape_wf(t),
        0 <= k < stmts.len(),
        stmts[k] is Inst,
        spec_emit(stmts, cur, blocks, t) is Ok,
    ensures
        spec_emit(stmts.take(k), cur, blocks, t) is Ok,
        spec_emit(stmts.take(k + 1), cur, blocks, t) is Ok,
        ({
            let p = spec_emit(stmts, cur, blocks, t).unwrap();
            let m = spec_emit(stmts.take(k), cur, blocks, t).unwrap();
            let q = spec_emit(stmts.take(k + 1), cur, blocks, t).unwrap();
            match stmts[k] {
                StmtV::Inst(i) => {
                    &&& p.1.tape[m.1.idx] == crate::ast::spec_encoding(i.op)
                    &&& q.1.idx == m.1.idx + 1 + i.args.len()
                    &&& forall|c: int| m.1.idx <= c < q.1.idx ==> p.1.tape[c] == q.1.tape[c]
                },
                _ => true,
            }
        }),
{
    lemma_emit_split(stmts, k, cur, blocks, t);
    let m = spec_emit(stmts.take(k), cur, blocks, t).unwrap();
    lemma_emit_preserves(stmts.take(k), cur, blocks, t);
    assert(spec_emit(stmts.skip(k), m.0, blocks, m.1) is Ok);
    assert(stmts.skip(k)[0] == stmts[k]);
    lemma_emit_stmt_preserves(stmts[k], m.0, blocks, m.1);
    let q1 = spec_emit_stmt(stmts[k], m.0, blocks, m.1).unwrap();
    assert(stmts.skip(k).drop_first() =~= stmts.skip(k + 1));
    lemma_emit_preserves(stmts.skip(k + 1), q1.0, blocks, q1.1);
    assert(m.1.idx < q1.1.idx);
    lemma_emit_split(stmts.take(k + 1), k, cur, blocks, t);
    assert(stmts.take(k + 1).take(k) =~= stmts.take(k));
    assert(stmts.take(k + 1).skip(k) =~= seq![stmts[k]]);
    assert(seq![stmts[k]].drop_first() =~= Seq::<StmtV>::empty());
    assert(seq![stmts[k]][0] == stmts[k]);
    assert(spec_emit(Seq::<StmtV>::empty(), q1.0, blocks, q1.1) == Ok::<
        (Option<BlockV>, TapeSt),
        CompileError,
    >((q1.0, q1.1)));
    assert(spec_emit(seq![stmts[k]], m.0, blocks, m.1) == Ok::<
        (Option<BlockV>, TapeSt),
        CompileError,
    >((q1.0, q1.1)));
    assert(spec_emit(stmts.take(k + 1), cur, blocks, t) == Ok::<
        (Option<BlockV>, TapeSt),
        CompileError,
    >((q1.0, q1.1)));
}

} // verus!
