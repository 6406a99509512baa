//! The data model: opcodes, statements, arguments and the recursive literal
//! expressions, together with their mathematical views.

use vstd::prelude::*;
use crate::tape::MAX_CAPACITY;

verus! {

/// A half-open range of character positions in the source text, used for
/// diagnostics. Every statement, argument and literal carries one.
#[derive(Clone, Copy, PartialEq, Eq, Structural, Debug)]
pub struct Span {
    pub start: usize,
    pub end: usize,
}

/// A value together with the source span it came from.
#[derive(Debug, PartialEq)]
pub struct Spanned<T> {
    pub inner: T,
    pub span: Span,
}

/// Mathematical image of a `Spanned<T>`: the view of the inner value plus the span.
#[verifier::ext_equal]
pub struct SpannedV<V> {
    pub inner: V,
    pub span: Span,
}

impl<T: View> View for Spanned<T> {
    type V = SpannedV<T::V>;

    open spec fn view(&self) -> SpannedV<T::V> {
        SpannedV { inner: self.inner@, span: self.span }
    }
}

impl<T> Spanned<T> {
    pub fn new(inner: T, span: Span) -> (r: Spanned<T>)
        ensures
            r.inner == inner,
            r.span == span,
    {
        Spanned { inner, span }
    }

    pub fn to_inner(self) -> (r: T)
        ensures
            r == self.inner,
    {
        self.inner
    }
}

/// A label name with its span. Names beginning with `.` (user-written) or `:`
/// (compiler-synthesized) are local to the enclosing block; all other names are
/// global and open a new block.
pub type Label = Spanned<String>;

pub fn mk_lbl(name: String, span: Span) -> (r: Label)
    ensures
        r.inner == name,
        r.span == span,
{
    Spanned::new(name, span)
}

/// The instruction set: a closed enumeration of opcodes, each with a fixed
/// numeric encoding and a fixed argument count.
#[derive(Clone, Copy, PartialEq, Eq, Structural, Debug)]
pub enum Op {
    Hlt,
    Add,
    Mul,
    Cle,
    Ceq,
    Jmp,
    Beq,
    Cpy,
    Put,
    Ptn,
}

/// The numeric encoding of an opcode: its ordinal in the enumeration.
pub open spec fn spec_encoding(op: Op) -> i32 {
    match op {
        Op::Hlt => 0,
        Op::Add => 1,
        Op::Mul => 2,
        Op::Cle => 3,
        Op::Ceq => 4,
        Op::Jmp => 5,
        Op::Beq => 6,
        Op::Cpy => 7,
        Op::Put => 8,
        Op::Ptn => 9,
    }
}

/// The number of arguments each opcode requires.
pub open spec fn spec_nargs(op: Op) -> nat {
    match op {
        Op::Hlt => 0,
        Op::Add => 3,
        Op::Mul => 3,
        Op::Cle => 3,
        Op::Ceq => 3,
        Op::Jmp => 1,
        Op::Beq => 2,
        Op::Cpy => 2,
        Op::Put => 1,
        Op::Ptn => 1,
    }
}

impl Op {
    /// The cell value that stands for this opcode on the tape.
    pub fn encoding(&self) -> (r: i32)
        ensures
            r == spec_encoding(*self),
    {
        match self {
            Op::Hlt => 0,
            Op::Add => 1,
            Op::Mul => 2,
            Op::Cle => 3,
            Op::Ceq => 4,
            Op::Jmp => 5,
            Op::Beq => 6,
            Op::Cpy => 7,
            Op::Put => 8,
            Op::Ptn => 9,
        }
    }

    /// How many arguments this opcode takes. Enforced at parse time and relied
    /// upon, not re-checked, downstream.
    pub fn nargs(&self) -> (r: usize)
        ensures
            r as nat == spec_nargs(*self),
    {
        match self {
            Op::Add => 3,
            Op::Mul => 3,
            Op::Cle => 3,
            Op::Ceq => 3,
            Op::Beq => 2,
            Op::Cpy => 2,
            Op::Jmp => 1,
            Op::Put => 1,
            Op::Ptn => 1,
            Op::Hlt => 0,
        }
    }
}

/// A literal expression: the recursive operand language. `Ref` (`&e`) allocates
/// storage in the trailing data region and yields its address; `Deref` (`*e`)
/// reads an already-written tape cell at assembly time.
#[derive(Debug, PartialEq)]
pub enum Lit {
    Lbl(Label),
    Num(Spanned<i32>),
    Str(Spanned<String>),
    Chr(Spanned<char>),
    Ref(Box<Lit>),
    Deref(Box<Lit>),
}

/// Mathematical image of a literal expression.
#[verifier::ext_equal]
pub enum LitV {
    Lbl(SpannedV<Seq<char>>),
    Num(SpannedV<i32>),
    Str(SpannedV<Seq<char>>),
    Chr(SpannedV<char>),
    Ref(Box<LitV>),
    Deref(Box<LitV>),
}

pub open spec fn lit_view(l: Lit) -> LitV
    decreases l,
{
    match l {
        Lit::Lbl(lbl) => LitV::Lbl(SpannedV { inner: lbl.inner@, span: lbl.span }),
        Lit::Num(n) => LitV::Num(SpannedV { inner: n.inner, span: n.span }),
        Lit::Str(s) => LitV::Str(SpannedV { inner: s.inner@, span: s.span }),
        Lit::Chr(c) => LitV::Chr(SpannedV { inner: c.inner, span: c.span }),
        Lit::Ref(r) => LitV::Ref(Box::new(lit_view(*r))),
        Lit::Deref(d) => LitV::Deref(Box::new(lit_view(*d))),
    }
}

impl View for Lit {
    type V = LitV;

    open spec fn view(&self) -> LitV {
        lit_view(*self)
    }
}

/// The source span a literal expression carries: for the wrapping forms, the
/// span of the wrapped operand.
pub open spec fn spec_lit_span(l: LitV) -> Span
    decreases l,
{
    match l {
        LitV::Lbl(lbl) => lbl.span,
        LitV::Num(n) => n.span,
        LitV::Str(s) => s.span,
        LitV::Chr(c) => c.span,
        LitV::Ref(r) => spec_lit_span(*r),
        LitV::Deref(d) => spec_lit_span(*d),
    }
}

impl Lit {
    pub fn span(&self) -> (r: Span)
        ensures
            r == spec_lit_span(self@),
        decreases *self,
    {
        match self {
            Lit::Lbl(lbl) => lbl.span,
            Lit::Num(n) => n.span,
            Lit::Str(s) => s.span,
            Lit::Chr(c) => c.span,
            Lit::Ref(r) => r.span(),
            Lit::Deref(d) => d.span(),
        }
    }
}

/// An instruction argument: either a bare local-label reference (a jump/branch
/// target written `<name>`, whose argument slot is itself addressable), or a
/// literal expression.
#[derive(Debug, PartialEq)]
pub enum Arg {
    Lit(Lit),
    Lbl(Label),
}

#[verifier::ext_equal]
pub enum ArgV {
    Lit(LitV),
    Lbl(SpannedV<Seq<char>>),
}

pub open spec fn arg_view(a: Arg) -> ArgV {
    match a {
        Arg::Lit(l) => ArgV::Lit(lit_view(l)),
        Arg::Lbl(lbl) => ArgV::Lbl(SpannedV { inner: lbl.inner@, span: lbl.span }),
    }
}

impl View for Arg {
    type V = ArgV;

    open spec fn view(&self) -> ArgV {
        arg_view(*self)
    }
}

/// An opcode with its ordered argument list.
#[derive(Debug, PartialEq)]
pub struct Inst {
    pub op: Op,
    pub args: Vec<Arg>,
    pub span: Span,
}

#[verifier::ext_equal]
pub struct InstV {
    pub op: Op,
    pub args: Seq<ArgV>,
    pub span: Span,
}

/// The views of an argument list.
pub open spec fn arg_views(s: Seq<Arg>) -> Seq<ArgV> {
    s.map_values(|a: Arg| arg_view(a))
}

pub open spec fn inst_view(i: Inst) -> InstV {
    InstV { op: i.op, args: arg_views(i.args@), span: i.span }
}

impl View for Inst {
    type V = InstV;

    open spec fn view(&self) -> InstV {
        inst_view(*self)
    }
}

impl Inst {
    pub fn new(op: Op, args: Vec<Arg>, span: Span) -> (r: Inst)
        ensures
            r@ == (InstV { op, args: arg_views(args@), span }),
    {
        Inst { op, args, span }
    }
}

/// One statement of the program body: a label declaration, an instruction, or a
/// standalone literal emitted directly into the tape.
#[derive(Debug, PartialEq)]
pub enum Stmt {
    Label(Label),
    Inst(Inst),
    Lit(Lit),
}

#[verifier::ext_equal]
pub enum StmtV {
    Label(SpannedV<Seq<char>>),
    Inst(InstV),
    Lit(LitV),
}

pub open spec fn stmt_view(s: Stmt) -> StmtV {
    match s {
        Stmt::Label(lbl) => StmtV::Label(SpannedV { inner: lbl.inner@, span: lbl.span }),
        Stmt::Inst(i) => StmtV::Inst(inst_view(i)),
        Stmt::Lit(l) => StmtV::Lit(lit_view(l)),
    }
}

impl View for Stmt {
    type V = StmtV;

    open spec fn view(&self) -> StmtV {
        stmt_view(*self)
    }
}

/// The view of a whole statement list.
pub open spec fn stmt_views(ss: Seq<Stmt>) -> Seq<StmtV> {
    ss.map_values(|s: Stmt| stmt_view(s))
}

/// An ordered list of statements: the whole compilation unit.
#[derive(Debug)]
pub struct Prog {
    pub stmts: Vec<Stmt>,
    pub span: Span,
}

/// How many tape cells a standalone literal statement occupies: one per
/// character for a string, one for anything else.
pub open spec fn spec_lit_size(l: LitV) -> nat {
    match l {
        LitV::Str(s) => s.inner.len(),
        _ => 1,
    }
}

pub fn lit_size(lit: &Lit) -> (r: usize)
    ensures
        r as nat == spec_lit_size(lit@),
{
    match lit {
        Lit::Str(s) => s.inner.as_str().unicode_len(),
        _ => 1,
    }
}

/// Structural validity of a literal expression, guaranteed by the parsing
/// layer and assumed here: a string appears only as the direct operand of a
/// `Ref`, and only `Lbl`, `Ref` and `Deref` may stand under a `Deref`.
pub open spec fn lit_ok(l: LitV) -> bool
    decreases l,
{
    match l {
        LitV::Lbl(_) => true,
        LitV::Num(_) => true,
        LitV::Chr(_) => true,
        LitV::Str(_) => false,
        LitV::Ref(inner) => match *inner {
            LitV::Str(_) => true,
            _ => lit_ok(*inner),
        },
        LitV::Deref(inner) => match *inner {
            LitV::Lbl(_) => lit_ok(*inner),
            LitV::Ref(_) => lit_ok(*inner),
            LitV::Deref(_) => lit_ok(*inner),
            _ => false,
        },
    }
}

/// Structural validity of a statement: every literal in it satisfies `lit_ok`,
/// except that a standalone string literal statement is allowed.
pub open spec fn stmt_ok(s: StmtV) -> bool {
    match s {
        StmtV::Label(_) => true,
        StmtV::Inst(i) => forall|j: int|
            0 <= j < i.args.len() ==> #[trigger] arg_ok(i.args[j]),
        StmtV::Lit(l) => match l {
            LitV::Str(_) => true,
            _ => lit_ok(l),
        },
    }
}

pub open spec fn arg_ok(a: ArgV) -> bool {
    match a {
        ArgV::Lit(l) => lit_ok(l),
        ArgV::Lbl(_) => true,
    }
}

pub open spec fn stmts_ok(ss: Seq<StmtV>) -> bool {
    forall|i: int| 0 <= i < ss.len() ==> #[trigger] stmt_ok(ss[i])
}

/// How many tape cells one statement occupies: none for a label, one for the
/// opcode plus one per argument for an instruction, and `spec_lit_size` cells
/// for a standalone literal.
pub open spec fn stmt_cells(s: StmtV) -> int {
    match s {
        StmtV::Label(_) => 0,
        StmtV::Inst(i) => 1 + i.args.len() as int,
        StmtV::Lit(l) => spec_lit_size(l) as int,
    }
}

/// The total cell footprint of a statement stream.
pub open spec fn stmts_cells(ss: Seq<StmtV>) -> int
    decreases ss.len(),
{
    if ss.len() == 0 {
        0
    } else {
        stmt_cells(ss[0]) + stmts_cells(ss.drop_first())
    }
}

pub proof fn lemma_stmts_cells_nonneg(ss: Seq<StmtV>)
    ensures
        stmts_cells(ss) >= 0,
    decreases ss.len(),
{
    if ss.len() == 0 {
    } else {
        lemma_stmts_cells_nonneg(ss.drop_first());
    }
}

/// Tests `lit_ok` at run time, for callers that assemble syntax trees outside
/// the parsing layer.
pub fn check_lit(l: &Lit) -> (r: bool)
    ensures
        r == lit_ok(l@),
    decreases *l,
{
    match l {
        Lit::Lbl(_) => true,
        Lit::Num(_) => true,
        Lit::Chr(_) => true,
        Lit::Str(_) => false,
        Lit::Ref(inner) => match &**inner {
            Lit::Str(_) => true,
            other => check_lit(other),
        },
        Lit::Deref(inner) => match &**inner {
            Lit::Lbl(_) => check_lit(inner),
            Lit::Ref(_) => check_lit(inner),
            Lit::Deref(_) => check_lit(inner),
            _ => false,
        },
    }
}

/// Tests `arg_ok` at run time.
pub fn check_arg(a: &Arg) -> (r: bool)
    ensures
        r == arg_ok(a@),
{
    match a {
        Arg::Lit(l) => check_lit(l),
        Arg::Lbl(_) => true,
    }
}

/// Tests every argument of a list for `arg_ok`.
fn check_args(args: &Vec<Arg>) -> (r: bool)
    ensures
        r == (forall|j: int|
            0 <= j < arg_views(args@).len() ==> #[trigger] arg_ok(arg_views(args@)[j])),
{
    let mut k: usize = 0;
    while k < args.len()
        invariant
            k <= args@.len(),
            forall|j: int| 0 <= j < k ==> #[trigger] arg_ok(arg_views(args@)[j]),
        decreases args@.len() - k,
    {
        proof {
            assert(arg_views(args@)[k as int] == args@[k as int]@);
        }
        if !check_arg(&args[k]) {
            proof {
                assert(!arg_ok(arg_views(args@)[k as int]));
            }
            return false;
        }
        k = k + 1;
    }
    true
}

/// Tests `stmt_ok` at run time.
pub fn check_stmt(s: &Stmt) -> (r: bool)
    ensures
        r == stmt_ok(s@),
{
    match s {
        Stmt::Label(_) => true,
        Stmt::Inst(i) => {
            let r = check_args(&i.args);
            proof {
                let iv = inst_view(*i);
                assert(s@ == StmtV::Inst(iv));
                if r {
                    assert forall|j: int| 0 <= j < iv.args.len() implies #[trigger] arg_ok(
                        iv.args[j],
                    ) by {
                        assert(arg_ok(arg_views(i.args@)[j]));
                    }
                    assert(stmt_ok(s@));
                } else {
                    let j = choose|j: int|
                        0 <= j < arg_views(i.args@).len() && !arg_ok(arg_views(i.args@)[j]);
                    assert(!arg_ok(iv.args[j]));
                    assert(!stmt_ok(s@));
                }
            }
            r
        },
        Stmt::Lit(l) => match l {
            Lit::Str(_) => true,
            other => check_lit(other),
        },
    }
}

/// Tests `stmts_ok` at run time: callers outside the parsing layer can check
/// the structural input contract instead of relying on it.
pub fn check_stmts(stmts: &Vec<Stmt>) -> (r: bool)
    ensures
        r == stmts_ok(stmt_views(stmts@)),
{
    let mut k: usize = 0;
    while k < stmts.len()
        invariant
            k <= stmts@.len(),
            forall|j: int| 0 <= j < k ==> #[trigger] stmt_ok(stmt_views(stmts@)[j]),
        decreases stmts@.len() - k,
    {
        proof {
            assert(stmt_views(stmts@)[k as int] == stmts@[k as int]@);
        }
        if !check_stmt(&stmts[k]) {
            proof {
                assert(!stmt_ok(stmt_views(stmts@)[k as int]));
            }
            return false;
        }
        k = k + 1;
    }
    true
}

/// Sums the cell footprint of the statements from index `k` on onto `acc`, or
/// reports that it exceeds the largest capacity.
fn total_cells_from(stmts: &Vec<Stmt>, k: usize, acc: usize) -> (r: Option<usize>)
    requires
        k <= stmts@.len(),
        acc <= MAX_CAPACITY,
    ensures
        match r {
            Some(n) => acc + stmts_cells(stmt_views(stmts@).skip(k as int)) == n as int && n
                <= MAX_CAPACITY,
            None => acc + stmts_cells(stmt_views(stmts@).skip(k as int)) > MAX_CAPACITY as int,
        },
    decreases stmts@.len() - k,
{
    if k == stmts.len() {
        proof {
            assert(stmt_views(stmts@).skip(k as int) =~= Seq::<StmtV>::empty());
        }
        Some(acc)
    } else {
        let ghost rest = stmt_views(stmts@).skip(k as int);
        proof {
            assert(rest[0] == stmts@[k as int]@);
            assert(rest.drop_first() =~= stmt_views(stmts@).skip(k as int + 1));
            lemma_stmts_cells_nonneg(rest.drop_first());
        }
        let c_opt: Option<usize> = match &stmts[k] {
            Stmt::Label(_) => Some(0),
            Stmt::Inst(i) => {
                let n = i.args.len();
                if n <= MAX_CAPACITY - 1 {
                    Some(n + 1)
                } else {
                    None
                }
            },
            Stmt::Lit(l) => {
                let sz = lit_size(l);
                if sz <= MAX_CAPACITY {
                    Some(sz)
                } else {
                    None
                }
            },
        };
        match c_opt {
            None => None,
            Some(c) => {
                if c > MAX_CAPACITY - acc {
                    None
                } else {
                    total_cells_from(stmts, k + 1, acc + c)
                }
            },
        }
    }
}

/// The total cell footprint of a statement stream, or `None` when it exceeds
/// the largest capacity (an absolute offset past `MAX_CAPACITY` cannot stand
/// in a signed 32-bit cell).
pub fn total_cells(stmts: &Vec<Stmt>) -> (r: Option<usize>)
    ensures
        match r {
            Some(n) => stmts_cells(stmt_views(stmts@)) == n as int && n <= MAX_CAPACITY,
            None => stmts_cells(stmt_views(stmts@)) > MAX_CAPACITY as int,
        },
{
    proof {
        assert(stmt_views(stmts@).skip(0) =~= stmt_views(stmts@));
    }
    total_cells_from(stmts, 0, 0)
}

/// Deep copy of a label, with the same view.
pub fn dup_label(l: &Label) -> (r: Label)
    ensures
        r@ == l@,
{
    Spanned { inner: l.inner.clone(), span: l.span }
}

/// Deep copy of a literal expression, with the same view.
pub fn dup_lit(l: &Lit) -> (r: Lit)
    ensures
        r@ == l@,
    decreases *l,
{
    match l {
        Lit::Lbl(lbl) => Lit::Lbl(dup_label(lbl)),
        Lit::Num(n) => Lit::Num(Spanned { inner: n.inner, span: n.span }),
        Lit::Str(s) => Lit::Str(Spanned { inner: s.inner.clone(), span: s.span }),
        Lit::Chr(c) => Lit::Chr(Spanned { inner: c.inner, span: c.span }),
        Lit::Ref(r) => Lit::Ref(Box::new(dup_lit(r))),
        Lit::Deref(d) => Lit::Deref(Box::new(dup_lit(d))),
    }
}

/// Deep copy of an argument, with the same view.
pub fn dup_arg(a: &Arg) -> (r: Arg)
    ensures
        r@ == a@,
{
    match a {
        Arg::Lit(l) => Arg::Lit(dup_lit(l)),
        Arg::Lbl(lbl) => Arg::Lbl(dup_label(lbl)),
    }
}

/// Deep copy of a statement, with the same view.
pub fn dup_stmt(s: &Stmt) -> (r: Stmt)
    ensures
        r@ == s@,
{
    match s {
        Stmt::Label(lbl) => Stmt::Label(dup_label(lbl)),
        Stmt::Inst(i) => {
            let mut args: Vec<Arg> = Vec::new();
            let mut k: usize = 0;
            while k < i.args.len()
                invariant
                    k <= i.args.len(),
                    args@.len() == k as int,
                    forall|j: int| 0 <= j < k ==> #[trigger] args@[j]@ == i.args@[j]@,
                decreases i.args.len() - k,
            {
                args.push(dup_arg(&i.args[k]));
                k = k + 1;
            }
            proof {
                assert forall|j: int| 0 <= j < i.args@.len() implies arg_views(args@)[j]
                    == arg_views(i.args@)[j] by {
                    assert(args@[j]@ == i.args@[j]@);
                }
                assert(arg_views(args@) =~= arg_views(i.args@));
            }
            Stmt::Inst(Inst { op: i.op, args, span: i.span })
        },
        Stmt::Lit(l) => Stmt::Lit(dup_lit(l)),
    }
}

} // verus!
