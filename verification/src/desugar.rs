//! The desugaring engine: rewrites dereference arguments into chains of
//! primitive copy instructions aimed at fresh compiler-synthesized labels.

use vstd::prelude::*;
use crate::ast::{
    Arg, ArgV, Inst, InstV, Label, Lit, LitV, Op, Prog, Span, SpannedV, Stmt, StmtV, arg_ok,
    arg_view, arg_views, dup_arg, dup_label, dup_lit, dup_stmt, lit_ok, mk_lbl, spec_lit_span,
    stmt_ok, stmt_view, stmt_views, stmts_ok,
};
use crate::labels::{arg_name, cpy_name, spec_arg_name, spec_cpy_name};

verus! {

/// How many `Deref` wrappers stand at the head of a literal expression.
pub open spec fn deref_depth(l: LitV) -> nat
    decreases l,
{
    match l {
        LitV::Deref(inner) => 1 + deref_depth(*inner),
        _ => 0,
    }
}

/// A machine limit: the nesting depth of each dereference argument must leave
/// room for the synthetic-label counter.
pub open spec fn arg_depth_ok(a: ArgV) -> bool {
    match a {
        ArgV::Lit(LitV::Deref(d)) => deref_depth(*d) < usize::MAX,
        _ => true,
    }
}

pub open spec fn stmt_depth_ok(s: StmtV) -> bool {
    match s {
        StmtV::Inst(i) => forall|j: int| 0 <= j < i.args.len() ==> #[trigger] arg_depth_ok(i.args[j]),
        _ => true,
    }
}

pub open spec fn stmts_depth_ok(ss: Seq<StmtV>) -> bool {
    forall|i: int| 0 <= i < ss.len() ==> #[trigger] stmt_depth_ok(ss[i])
}

/// Computes the dereference depth, or `None` when it does not fit a machine
/// word.
fn deref_depth_checked(l: &Lit) -> (r: Option<usize>)
    ensures
        match r {
            Some(d) => deref_depth(l@) == d as nat,
            None => deref_depth(l@) >= usize::MAX,
        },
    decreases *l,
{
    match l {
        Lit::Deref(inner) => match deref_depth_checked(inner) {
            Some(d) => if d < usize::MAX {
                Some(d + 1)
            } else {
                None
            },
            None => None,
        },
        _ => Some(0),
    }
}

/// Tests `arg_depth_ok` at run time.
fn check_arg_depth(a: &Arg) -> (r: bool)
    ensures
        r == arg_depth_ok(a@),
{
    match a {
        Arg::Lit(l) => match l {
            Lit::Deref(d) => match deref_depth_checked(d) {
                Some(n) => n < usize::MAX,
                None => false,
            },
            _ => true,
        },
        _ => true,
    }
}

/// Tests every argument of a list for `arg_depth_ok`.
fn check_args_depth(args: &Vec<Arg>) -> (r: bool)
    ensures
        r == (forall|j: int|
            0 <= j < arg_views(args@).len() ==> #[trigger] arg_depth_ok(arg_views(args@)[j])),
{
    let mut k: usize = 0;
    while k < args.len()
        invariant
            k <= args@.len(),
            forall|j: int| 0 <= j < k ==> #[trigger] arg_depth_ok(arg_views(args@)[j]),
        decreases args@.len() - k,
    {
        proof {
            assert(arg_views(args@)[k as int] == args@[k as int]@);
        }
        if !check_arg_depth(&args[k]) {
            proof {
                assert(!arg_depth_ok(arg_views(args@)[k as int]));
            }
            return false;
        }
        k = k + 1;
    }
    true
}

/// Tests `stmt_depth_ok` at run time.
fn check_stmt_depth(s: &Stmt) -> (r: bool)
    ensures
        r == stmt_depth_ok(s@),
{
    match s {
        Stmt::Inst(i) => {
            let r = check_args_depth(&i.args);
            proof {
                let iv = crate::ast::inst_view(*i);
                assert(s@ == StmtV::Inst(iv));
                if r {
                    assert forall|j: int| 0 <= j < iv.args.len() implies #[trigger] arg_depth_ok(
                        iv.args[j],
                    ) by {
                        assert(arg_depth_ok(arg_views(i.args@)[j]));
                    }
                    assert(stmt_depth_ok(s@));
                } else {
                    let j = choose|j: int|
                        0 <= j < arg_views(i.args@).len() && !arg_depth_ok(arg_views(i.args@)[j]);
                    assert(!arg_depth_ok(iv.args[j]));
                    assert(!stmt_depth_ok(s@));
                }
            }
            r
        },
        _ => true,
    }
}

/// Tests the machine-limit `stmts_depth_ok` at run time: every dereference
/// chain must leave room for the synthetic-label counter.
pub fn check_depths(stmts: &Vec<Stmt>) -> (r: bool)
    ensures
        r == stmts_depth_ok(stmt_views(stmts@)),
{
    let mut k: usize = 0;
    while k < stmts.len()
        invariant
            k <= stmts@.len(),
            forall|j: int| 0 <= j < k ==> #[trigger] stmt_depth_ok(stmt_views(stmts@)[j]),
        decreases stmts@.len() - k,
    {
        proof {
            assert(stmt_views(stmts@)[k as int] == stmts@[k as int]@);
        }
        if !check_stmt_depth(&stmts[k]) {
            proof {
                assert(!stmt_depth_ok(stmt_views(stmts@)[k as int]));
            }
            return false;
        }
        k = k + 1;
    }
    true
}

/// A synthetic `Cpy` instruction: copies the cell `src` points at into the cell
/// named by the local label `dst`.
pub open spec fn spec_cpy_stmt(src: ArgV, dst: SpannedV<Seq<char>>, span: Span) -> StmtV {
    StmtV::Inst(
        InstV { op: Op::Cpy, args: seq![src, ArgV::Lit(LitV::Lbl(dst))], span },
    )
}

/// The chain of synthetic `Cpy` instructions that evaluates the operand of one
/// dereference into the cell labeled `lbl`, innermost dereference first.
pub open spec fn spec_solve_arg_deref(
    deref_to: LitV,
    lbl: SpannedV<Seq<char>>,
    pos: int,
    depth: int,
) -> Seq<StmtV>
    decreases deref_to,
{
    match deref_to {
        LitV::Deref(inner) => {
            let span = spec_lit_span(*inner);
            let cpy_lbl = SpannedV { inner: spec_cpy_name(pos, depth + 1), span };
            spec_solve_arg_deref(*inner, cpy_lbl, pos, depth + 1).push(
                spec_cpy_stmt(ArgV::Lbl(cpy_lbl), lbl, span),
            )
        },
        other => seq![
            spec_cpy_stmt(ArgV::Lit(other), lbl, spec_lit_span(other)),
        ],
    }
}

/// Desugaring one argument at output position `pos`: a dereference argument
/// becomes a reference to a fresh synthetic label, preceded by its `Cpy` chain;
/// every other argument passes through unchanged.
pub open spec fn spec_desugar_arg(a: ArgV, pos: int) -> (Seq<StmtV>, ArgV) {
    match a {
        ArgV::Lit(LitV::Deref(d)) => {
            let lbl = SpannedV { inner: spec_arg_name(pos, 0), span: spec_lit_span(*d) };
            (spec_solve_arg_deref(*d, lbl, pos, 0), ArgV::Lbl(lbl))
        },
        _ => (Seq::<StmtV>::empty(), a),
    }
}

/// Desugaring an argument list in order; `pos` advances over the synthetic
/// statements emitted for earlier arguments, which keeps synthetic names
/// distinct across the whole program.
pub open spec fn spec_desugar_args(args: Seq<ArgV>, pos: int) -> (Seq<StmtV>, Seq<ArgV>)
    decreases args.len(),
{
    if args.len() == 0 {
        (Seq::<StmtV>::empty(), Seq::<ArgV>::empty())
    } else {
        let first = spec_desugar_arg(args[0], pos);
        let rest = spec_desugar_args(args.drop_first(), pos + first.0.len());
        (first.0 + rest.0, seq![first.1] + rest.1)
    }
}

/// Desugaring one statement at output position `pos`: labels and standalone
/// literals pass through; an instruction is preceded by the synthetic
/// statements of its arguments.
pub open spec fn spec_desugar_stmt(s: StmtV, pos: int) -> Seq<StmtV> {
    match s {
        StmtV::Inst(i) => {
            let d = spec_desugar_args(i.args, pos);
            d.0.push(StmtV::Inst(InstV { op: i.op, args: d.1, span: i.span }))
        },
        _ => seq![s],
    }
}

/// Desugaring a whole statement stream, threading the output position.
pub open spec fn spec_desugar(stmts: Seq<StmtV>, pos: int) -> Seq<StmtV>
    decreases stmts.len(),
{
    if stmts.len() == 0 {
        Seq::<StmtV>::empty()
    } else {
        let first = spec_desugar_stmt(stmts[0], pos);
        first + spec_desugar(stmts.drop_first(), pos + first.len())
    }
}

pub proof fn lemma_stmt_views_push(s: Seq<Stmt>, x: Stmt)
    ensures
        stmt_views(s.push(x)) =~= stmt_views(s).push(stmt_view(x)),
{
}

/// Builds the primitive copy instruction `cpy src dst`.
fn cpy_stmt(src: Arg, dst: Label, span: Span) -> (r: Stmt)
    ensures
        r@ == spec_cpy_stmt(src@, dst@, span),
{
    let mut args: Vec<Arg> = Vec::new();
    args.push(src);
    args.push(Arg::Lit(Lit::Lbl(dst)));
    let r = Stmt::Inst(Inst { op: Op::Cpy, args, span });
    proof {
        assert(r@ =~~= spec_cpy_stmt(src@, dst@, span));
    }
    r
}

/// Emits the `Cpy` chain for the operand of one dereference argument:
/// the innermost dereference is solved first by a deeper synthetic label, and
/// each level copies one step outward into `lbl`.
pub fn solve_arg_deref(
    deref_to: &Lit,
    lbl: Label,
    pos: usize,
    depth: usize,
    stmts: &mut Vec<Stmt>,
)
    requires
        depth + deref_depth(deref_to@) < usize::MAX,
    ensures
        stmt_views(final(stmts)@) == stmt_views(old(stmts)@) + spec_solve_arg_deref(
            deref_to@,
            lbl@,
            pos as int,
            depth as int,
        ),
    decreases *deref_to,
{
    match deref_to {
        Lit::Deref(inner) => {
            let span = inner.span();
            let cpy_lbl = mk_lbl(cpy_name(pos, depth + 1), span);
            let ghost cpy_lbl_v = cpy_lbl@;
            proof {
                assert(deref_to@ == LitV::Deref(Box::new(inner@)));
                assert(cpy_lbl_v == (SpannedV {
                    inner: spec_cpy_name(pos as int, depth as int + 1),
                    span: spec_lit_span(inner@),
                }));
            }
            solve_arg_deref(inner, dup_label(&cpy_lbl), pos, depth + 1, stmts);
            let ghost prev = stmts@;
            let s = cpy_stmt(Arg::Lbl(cpy_lbl), lbl, span);
            stmts.push(s);
            proof {
                lemma_stmt_views_push(prev, s);
                assert(spec_solve_arg_deref(deref_to@, lbl@, pos as int, depth as int)
                    == spec_solve_arg_deref(inner@, cpy_lbl_v, pos as int, depth as int + 1).push(
                    spec_cpy_stmt(ArgV::Lbl(cpy_lbl_v), lbl@, span),
                ));
                assert(stmt_views(stmts@) =~= stmt_views(old(stmts)@) + spec_solve_arg_deref(
                    deref_to@,
                    lbl@,
                    pos as int,
                    depth as int,
                ));
            }
        },
        other => {
            let span = other.span();
            let ghost prev = stmts@;
            let s = cpy_stmt(Arg::Lit(dup_lit(other)), lbl, span);
            stmts.push(s);
            proof {
                lemma_stmt_views_push(prev, s);
                assert(stmt_views(stmts@) =~= stmt_views(old(stmts)@) + spec_solve_arg_deref(
                    other@,
                    lbl@,
                    pos as int,
                    depth as int,
                ));
            }
        },
    }
}

/// Desugars the arguments of one instruction from index `k` on, pushing the
/// synthetic statements onto `out` and the rewritten arguments onto `new_args`.
fn desugar_arg_deref(args: &Vec<Arg>, k: usize, out: &mut Vec<Stmt>, new_args: &mut Vec<Arg>)
    requires
        k <= args@.len(),
        forall|j: int| 0 <= j < args@.len() ==> #[trigger] arg_depth_ok(args@[j]@),
    ensures
        stmt_views(final(out)@) == stmt_views(old(out)@) + spec_desugar_args(
            arg_views(args@).skip(k as int),
            old(out)@.len() as int,
        ).0,
        arg_views(final(new_args)@) == arg_views(old(new_args)@) + spec_desugar_args(
            arg_views(args@).skip(k as int),
            old(out)@.len() as int,
        ).1,
    decreases args@.len() - k,
{
    if k == args.len() {
        proof {
            assert(arg_views(args@).skip(k as int) =~= Seq::<ArgV>::empty());
            assert(stmt_views(out@) =~= stmt_views(old(out)@) + Seq::<StmtV>::empty());
            assert(arg_views(new_args@) =~= arg_views(old(new_args)@) + Seq::<ArgV>::empty());
        }
    } else {
        let ghost rest_views = arg_views(args@).skip(k as int);
        let ghost pos0 = out@.len() as int;
        let ghost first = spec_desugar_arg(args@[k as int]@, pos0);
        proof {
            assert(rest_views[0] == args@[k as int]@);
            assert(rest_views.drop_first() =~= arg_views(args@).skip(k as int + 1));
            assert(arg_depth_ok(args@[k as int]@));
        }
        let arg = &args[k];
        let mut is_deref = false;
        match arg {
            Arg::Lit(l) => match l {
                Lit::Deref(d) => {
                    proof {
                        assert(arg@ == ArgV::Lit(LitV::Deref(Box::new(d@))));
                        assert(deref_depth(d@) < usize::MAX);
                    }
                    is_deref = true;
                    let pos = out.len();
                    let span = d.span();
                    let lbl = mk_lbl(arg_name(pos, 0), span);
                    let ghost lbl_v = lbl@;
                    proof {
                        assert(lbl_v == (SpannedV {
                            inner: spec_arg_name(pos0, 0),
                            span: spec_lit_span(d@),
                        }));
                        assert(first == (spec_solve_arg_deref(d@, lbl_v, pos0, 0), ArgV::Lbl(
                            lbl_v,
                        )));
                    }
                    solve_arg_deref(d, dup_label(&lbl), pos, 0, out);
                    let ghost prev_args = new_args@;
                    new_args.push(Arg::Lbl(lbl));
                    proof {
                        lemma_arg_views_push(prev_args, Arg::Lbl(lbl));
                        assert(stmt_views(out@) == stmt_views(old(out)@) + first.0);
                        assert(arg_views(new_args@) =~= arg_views(old(new_args)@).push(first.1));
                    }
                },
                _ => {},
            },
            _ => {},
        }
        if !is_deref {
            let ghost prev_args = new_args@;
            new_args.push(dup_arg(arg));
            proof {
                lemma_arg_views_push(prev_args, new_args@.last());
                assert(first == (Seq::<StmtV>::empty(), args@[k as int]@));
                assert(stmt_views(out@) =~= stmt_views(old(out)@) + first.0);
                assert(arg_views(new_args@) =~= arg_views(old(new_args)@).push(first.1));
            }
        }
        desugar_arg_deref(args, k + 1, out, new_args);
        proof {
            let rest = spec_desugar_args(rest_views.drop_first(), pos0 + first.0.len() as int);
            assert(spec_desugar_args(rest_views, pos0) == (first.0 + rest.0, seq![first.1]
                + rest.1));
            assert(stmt_views(out@) =~= stmt_views(old(out)@) + (first.0 + rest.0));
            assert(arg_views(new_args@) =~= arg_views(old(new_args)@) + (seq![first.1] + rest.1));
        }
    }
}

pub proof fn lemma_arg_views_push(s: Seq<Arg>, x: Arg)
    ensures
        arg_views(s.push(x)) =~= arg_views(s).push(arg_view(x)),
{
}

/// The desugaring engine: accumulates the flat output statement stream. The
/// number of statements emitted so far keys the synthetic label names, so they
/// never repeat across the program.
pub struct Desugarer {
    pub queue: Vec<Stmt>,
}

impl Desugarer {
    pub fn new() -> (r: Desugarer)
        ensures
            r.queue@ =~= Seq::<Stmt>::empty(),
    {
        Desugarer { queue: Vec::new() }
    }

    /// The output position: how many statements have been emitted so far.
    pub fn get_head_pos(&self) -> (r: usize)
        ensures
            r == self.queue@.len(),
    {
        self.queue.len()
    }

    /// Passes one statement through unchanged.
    pub fn push_sugar(&mut self, stmt: Stmt)
        ensures
            final(self).queue@ == old(self).queue@.push(stmt),
    {
        self.queue.push(stmt);
    }

    /// Desugars one statement onto the output stream: labels and standalone
    /// literals pass through; instructions have their dereference arguments
    /// expanded.
    pub fn desugar(&mut self, stmt: &Stmt)
        requires
            stmt_depth_ok(stmt@),
        ensures
            stmt_views(final(self).queue@) == stmt_views(old(self).queue@) + spec_desugar_stmt(
                stmt@,
                old(self).queue@.len() as int,
            ),
    {
        match stmt {
            Stmt::Inst(inst) => desugar_inst(inst, self),
            _ => {
                let s = dup_stmt(stmt);
                self.queue.push(s);
                proof {
                    assert(stmt_views(self.queue@) =~= stmt_views(old(self).queue@)
                        + spec_desugar_stmt(stmt@, old(self).queue@.len() as int));
                }
            },
        }
    }
}

/// Desugars one instruction: emits the synthetic statements for its arguments,
/// then the instruction itself with its arguments rewritten.
pub fn desugar_inst(inst: &Inst, desugarer: &mut Desugarer)
    requires
        stmt_depth_ok(StmtV::Inst(inst@)),
    ensures
        stmt_views(final(desugarer).queue@) == stmt_views(old(desugarer).queue@)
            + spec_desugar_stmt(StmtV::Inst(inst@), old(desugarer).queue@.len() as int),
{
    let ghost pos = desugarer.queue@.len() as int;
    let mut new_args: Vec<Arg> = Vec::new();
    proof {
        assert(arg_views(inst.args@).skip(0) =~= arg_views(inst.args@));
        assert(inst@.args == arg_views(inst.args@));
        assert forall|j: int| 0 <= j < inst.args@.len() implies #[trigger] arg_depth_ok(
            inst.args@[j]@,
        ) by {
            assert(inst@.args[j] == inst.args@[j]@);
            assert(arg_depth_ok(inst@.args[j]));
        }
    }
    desugar_arg_deref(&inst.args, 0, &mut desugarer.queue, &mut new_args);
    let ghost mid = desugarer.queue@;
    let ghost new_args_v = arg_views(new_args@);
    let s = Stmt::Inst(Inst { op: inst.op, args: new_args, span: inst.span });
    let ghost s_v = s@;
    desugarer.queue.push(s);
    proof {
        let d = spec_desugar_args(arg_views(inst.args@), pos);
        lemma_stmt_views_push(mid, s);
        assert(new_args_v =~= d.1);
        assert(s_v == StmtV::Inst(InstV { op: inst@.op, args: new_args_v, span: inst@.span }));
        assert(spec_desugar_stmt(StmtV::Inst(inst@), pos) == d.0.push(
            StmtV::Inst(InstV { op: inst@.op, args: d.1, span: inst@.span }),
        ));
        assert(stmt_views(desugarer.queue@) =~= stmt_views(old(desugarer).queue@)
            + spec_desugar_stmt(StmtV::Inst(inst@), pos));
    }
}

/// Desugars the statements of `stmts` from index `k` on into the engine.
fn desugar_from(stmts: &Vec<Stmt>, k: usize, d: &mut Desugarer)
    requires
        k <= stmts@.len(),
        stmts_depth_ok(stmt_views(stmts@)),
    ensures
        stmt_views(final(d).queue@) == stmt_views(old(d).queue@) + spec_desugar(
            stmt_views(stmts@).skip(k as int),
            old(d).queue@.len() as int,
        ),
    decreases stmts@.len() - k,
{
    if k == stmts.len() {
        proof {
            assert(stmt_views(stmts@).skip(k as int) =~= Seq::<StmtV>::empty());
            assert(stmt_views(d.queue@) =~= stmt_views(old(d).queue@) + Seq::<StmtV>::empty());
        }
    } else {
        let ghost rest = stmt_views(stmts@).skip(k as int);
        proof {
            assert(rest[0] == stmts@[k as int]@);
            assert(rest.drop_first() =~= stmt_views(stmts@).skip(k as int + 1));
            assert(stmt_depth_ok(stmt_views(stmts@)[k as int]));
        }
        d.desugar(&stmts[k]);
        desugar_from(stmts, k + 1, d);
        proof {
            let first = spec_desugar_stmt(rest[0], old(d).queue@.len() as int);
            assert(stmt_views(d.queue@) =~= stmt_views(old(d).queue@) + (first + spec_desugar(
                rest.drop_first(),
                old(d).queue@.len() + first.len() as int,
            )));
        }
    }
}

/// The `Cpy` chain emitted for a well-formed dereference operand consists of
/// well-formed statements.
pub proof fn lemma_solve_ok(deref_to: LitV, lbl: SpannedV<Seq<char>>, pos: int, depth: int)
    requires
        lit_ok(deref_to),
    ensures
        stmts_ok(spec_solve_arg_deref(deref_to, lbl, pos, depth)),
    decreases deref_to,
{
    match deref_to {
        LitV::Deref(inner) => {
            let span = spec_lit_span(*inner);
            let cpy_lbl = SpannedV { inner: spec_cpy_name(pos, depth + 1), span };
            lemma_solve_ok(*inner, cpy_lbl, pos, depth + 1);
            let prefix = spec_solve_arg_deref(*inner, cpy_lbl, pos, depth + 1);
            let s = spec_cpy_stmt(ArgV::Lbl(cpy_lbl), lbl, span);
            assert(stmt_ok(s));
            assert forall|i: int|
                0 <= i < prefix.push(s).len() implies #[trigger] stmt_ok(prefix.push(s)[i]) by {
                if i < prefix.len() {
                    assert(prefix.push(s)[i] == prefix[i]);
                }
            }
        },
        other => {
            let s = spec_cpy_stmt(ArgV::Lit(other), lbl, spec_lit_span(other));
            assert(stmt_ok(s));
        },
    }
}

/// Desugaring one argument yields well-formed synthetic statements and a
/// well-formed rewritten argument.
pub proof fn lemma_desugar_arg_ok(a: ArgV, pos: int)
    requires
        arg_ok(a),
    ensures
        stmts_ok(spec_desugar_arg(a, pos).0),
        arg_ok(spec_desugar_arg(a, pos).1),
{
    match a {
        ArgV::Lit(l) => match l {
            LitV::Deref(d) => {
                let lbl = SpannedV { inner: spec_arg_name(pos, 0), span: spec_lit_span(*d) };
                lemma_solve_ok(*d, lbl, pos, 0);
            },
            _ => {},
        },
        _ => {},
    }
}

/// Desugaring an argument list preserves well-formedness.
pub proof fn lemma_desugar_args_ok(args: Seq<ArgV>, pos: int)
    requires
        forall|j: int| 0 <= j < args.len() ==> #[trigger] arg_ok(args[j]),
    ensures
        stmts_ok(spec_desugar_args(args, pos).0),
        forall|j: int|
            0 <= j < spec_desugar_args(args, pos).1.len() ==> #[trigger] arg_ok(
                spec_desugar_args(args, pos).1[j],
            ),
    decreases args.len(),
{
    if args.len() == 0 {
    } else {
        let first = spec_desugar_arg(args[0], pos);
        lemma_desugar_arg_ok(args[0], pos);
        lemma_desugar_args_ok(args.drop_first(), pos + first.0.len());
        let rest = spec_desugar_args(args.drop_first(), pos + first.0.len());
        assert forall|i: int|
            0 <= i < (first.0 + rest.0).len() implies #[trigger] stmt_ok((first.0 + rest.0)[i]) by {
            if i < first.0.len() {
                assert((first.0 + rest.0)[i] == first.0[i]);
            } else {
                assert((first.0 + rest.0)[i] == rest.0[i - first.0.len()]);
            }
        }
        assert forall|i: int|
            0 <= i < (seq![first.1] + rest.1).len() implies #[trigger] arg_ok(
            (seq![first.1] + rest.1)[i],
        ) by {
            if i > 0 {
                assert((seq![first.1] + rest.1)[i] == rest.1[i - 1]);
            }
        }
    }
}

/// Desugaring one statement preserves well-formedness.
pub proof fn lemma_desugar_stmt_ok(s: StmtV, pos: int)
    requires
        stmt_ok(s),
    ensures
        stmts_ok(spec_desugar_stmt(s, pos)),
{
    match s {
        StmtV::Inst(i) => {
            lemma_desugar_args_ok(i.args, pos);
            let d = spec_desugar_args(i.args, pos);
            let tail = StmtV::Inst(InstV { op: i.op, args: d.1, span: i.span });
            assert(stmt_ok(tail));
            assert forall|j: int|
                0 <= j < d.0.push(tail).len() implies #[trigger] stmt_ok(d.0.push(tail)[j]) by {
                if j < d.0.len() {
                    assert(d.0.push(tail)[j] == d.0[j]);
                }
            }
        },
        _ => {
            assert(spec_desugar_stmt(s, pos) == seq![s]);
        },
    }
}

/// Desugaring preserves well-formedness across a whole stream: the flat output
/// again satisfies `stmts_ok`.
pub proof fn lemma_desugar_ok(stmts: Seq<StmtV>, pos: int)
    requires
        stmts_ok(stmts),
    ensures
        stmts_ok(spec_desugar(stmts, pos)),
    decreases stmts.len(),
{
    if stmts.len() == 0 {
    } else {
        let first = spec_desugar_stmt(stmts[0], pos);
        lemma_desugar_stmt_ok(stmts[0], pos);
        lemma_desugar_ok(stmts.drop_first(), pos + first.len());
        let rest = spec_desugar(stmts.drop_first(), pos + first.len());
        assert forall|i: int|
            0 <= i < (first + rest).len() implies #[trigger] stmt_ok((first + rest)[i]) by {
            if i < first.len() {
                assert((first + rest)[i] == first[i]);
            } else {
                assert((first + rest)[i] == rest[i - first.len()]);
            }
        }
    }
}

/// Desugars a whole program into the flat statement stream consumed by the
/// symbol resolver and the tape builder: the result contains no dereference in
/// argument position.
pub fn desugar_prog(prog: &Prog) -> (r: Vec<Stmt>)
    requires
        stmts_depth_ok(stmt_views(prog.stmts@)),
    ensures
        stmt_views(r@) == spec_desugar(stmt_views(prog.stmts@), 0),
{
    let mut d = Desugarer::new();
    proof {
        assert(stmt_views(prog.stmts@).skip(0) =~= stmt_views(prog.stmts@));
        assert(stmt_views(d.queue@) =~= Seq::<StmtV>::empty());
    }
    desugar_from(&prog.stmts, 0, &mut d);
    proof {
        assert(stmt_views(d.queue@) =~= spec_desugar(stmt_views(prog.stmts@), 0));
    }
    d.queue
}

} // verus!
