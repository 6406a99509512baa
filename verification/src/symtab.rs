//! The symbol resolver: one pass over the desugared stream that assigns every
//! statement its absolute tape offset, partitions the stream into named
//! blocks, and computes the total code size.

use vstd::prelude::*;
use crate::ast::{Arg, ArgV, SpannedV, Stmt, StmtV, arg_views, lemma_stmts_cells_nonneg,
    lit_size, spec_lit_size, stmt_cells, stmts_cells, stmt_views};
use crate::error::{CompileError, ErrorKind};
use crate::labels::{is_local_name, spec_is_local};
use crate::tape::MAX_CAPACITY;

verus! {

/// Last-definition-wins lookup in an association list: the entry pushed last
/// under a key shadows every earlier entry under the same key.
pub open spec fn assoc_find<V>(s: Seq<(Seq<char>, V)>, k: Seq<char>) -> Option<V>
    decreases s.len(),
{
    if s.len() == 0 {
        None
    } else if s.last().0 == k {
        Some(s.last().1)
    } else {
        assoc_find(s.drop_last(), k)
    }
}

/// A named scope: the absolute tape offset of its global label plus the private
/// table of local labels registered inside it.
#[derive(Debug, PartialEq)]
pub struct Block {
    pub start: usize,
    pub labels: Vec<(String, usize)>,
}

#[verifier::ext_equal]
pub struct BlockV {
    pub start: int,
    pub labels: Seq<(Seq<char>, int)>,
}

pub open spec fn label_entry_views(s: Seq<(String, usize)>) -> Seq<(Seq<char>, int)> {
    s.map_values(|p: (String, usize)| (p.0@, p.1 as int))
}

pub open spec fn block_view(b: Block) -> BlockV {
    BlockV { start: b.start as int, labels: label_entry_views(b.labels@) }
}

impl View for Block {
    type V = BlockV;

    open spec fn view(&self) -> BlockV {
        block_view(*self)
    }
}

/// The result of symbol resolution: every global label's block, in declaration
/// order, and the total code size (one past the last code cell).
#[derive(Debug, PartialEq)]
pub struct SymTab {
    pub blocks: Vec<(String, Block)>,
    pub code_size: usize,
}

#[verifier::ext_equal]
pub struct SymTabV {
    pub blocks: Seq<(Seq<char>, BlockV)>,
    pub code_size: int,
}

pub open spec fn block_entry_views(s: Seq<(String, Block)>) -> Seq<(Seq<char>, BlockV)> {
    s.map_values(|p: (String, Block)| (p.0@, block_view(p.1)))
}

pub open spec fn symtab_view(t: SymTab) -> SymTabV {
    SymTabV { blocks: block_entry_views(t.blocks@), code_size: t.code_size as int }
}

impl View for SymTab {
    type V = SymTabV;

    open spec fn view(&self) -> SymTabV {
        symtab_view(*self)
    }
}

/// Every offset a block holds lies within the tape.
pub open spec fn block_wf(b: BlockV, cap: int) -> bool {
    &&& 0 <= b.start <= cap
    &&& forall|j: int| 0 <= j < b.labels.len() ==> 0 <= (#[trigger] b.labels[j]).1 <= cap
}

/// Every offset in the symbol table lies within the tape, and the code region
/// fits it.
pub open spec fn symtab_wf(t: SymTabV, cap: int) -> bool {
    &&& 0 <= t.code_size <= cap
    &&& forall|j: int| 0 <= j < t.blocks.len() ==> block_wf((#[trigger] t.blocks[j]).1, cap)
}

/// Looks up a local label in a block's table, last definition first.
pub fn block_get(b: &Block, name: &String) -> (r: Option<usize>)
    ensures
        match r {
            Some(off) => assoc_find(b@.labels, name@) == Some(off as int),
            None => assoc_find(b@.labels, name@) is None,
        },
{
    let mut i = b.labels.len();
    proof {
        assert(b@.labels.take(i as int) =~= b@.labels);
    }
    while i > 0
        invariant
            i <= b.labels@.len(),
            assoc_find(b@.labels, name@) == assoc_find(
                b@.labels.take(i as int),
                name@,
            ),
        decreases i,
    {
        i = i - 1;
        let e = &b.labels[i];
        proof {
            let ghost p = b.labels@[i as int];
            assert(b@.labels.take(i as int + 1).last() == (p.0@, p.1 as int));
            assert(b@.labels.take(i as int + 1).drop_last() =~= b@.labels.take(i as int));
        }
        if e.0 == *name {
            return Some(e.1);
        }
    }
    proof {
        assert(b@.labels.take(0) =~= Seq::<(Seq<char>, int)>::empty());
    }
    None
}

/// Looks up a global label among the collected blocks, last definition first;
/// returns its index.
pub fn find_block(blocks: &Vec<(String, Block)>, name: &String) -> (r: Option<usize>)
    ensures
        match r {
            Some(i) => {
                &&& i < blocks@.len()
                &&& blocks@[i as int].0@ == name@
                &&& assoc_find(block_entry_views(blocks@), name@) == Some(
                    block_view(blocks@[i as int].1),
                )
            },
            None => assoc_find(block_entry_views(blocks@), name@) is None,
        },
{
    let mut i = blocks.len();
    proof {
        assert(block_entry_views(blocks@).take(i as int) =~= block_entry_views(blocks@));
    }
    while i > 0
        invariant
            i <= blocks@.len(),
            assoc_find(block_entry_views(blocks@), name@) == assoc_find(
                block_entry_views(blocks@).take(i as int),
                name@,
            ),
        decreases i,
    {
        i = i - 1;
        let e = &blocks[i];
        proof {
            assert(block_entry_views(blocks@).take(i as int + 1).last() == (blocks@[i as int].0@,
                block_view(blocks@[i as int].1)));
            assert(block_entry_views(blocks@).take(i as int + 1).drop_last()
                =~= block_entry_views(blocks@).take(i as int));
        }
        if e.0 == *name {
            return Some(i);
        }
    }
    proof {
        assert(block_entry_views(blocks@).take(0) =~= Seq::<(Seq<char>, BlockV)>::empty());
    }
    None
}

/// The state the resolver threads through its single left-to-right pass: the
/// currently open block, the blocks already closed, and the running offset.
#[verifier::ext_equal]
pub struct ResolveSt {
    pub cur: Option<(Seq<char>, BlockV)>,
    pub blocks: Seq<(Seq<char>, BlockV)>,
    pub off: int,
}

pub open spec fn spec_resolve_init() -> ResolveSt {
    ResolveSt { cur: None, blocks: Seq::empty(), off: 0 }
}

/// Closing the open block, if any, into the result mapping.
pub open spec fn spec_close(st: ResolveSt) -> Seq<(Seq<char>, BlockV)> {
    match st.cur {
        None => st.blocks,
        Some(c) => st.blocks.push(c),
    }
}

/// A label declaration: a global label closes the open block and opens a new
/// one at the current offset; a local label records the current offset in the
/// open block, and fails when none is open. Neither advances the offset.
pub open spec fn spec_resolve_label(l: SpannedV<Seq<char>>, st: ResolveSt) -> Result<
    ResolveSt,
    CompileError,
> {
    if spec_is_local(l.inner) {
        match st.cur {
            None => Err(CompileError { kind: ErrorKind::NoParentLabel, span: l.span }),
            Some(c) => Ok(
                ResolveSt {
                    cur: Some(
                        (c.0, BlockV { start: c.1.start, labels: c.1.labels.push((l.inner, st.off)) }),
                    ),
                    ..st
                },
            ),
        }
    } else {
        Ok(
            ResolveSt {
                cur: Some((l.inner, BlockV { start: st.off, labels: Seq::empty() })),
                blocks: spec_close(st),
                off: st.off,
            },
        )
    }
}

/// Walking an instruction's arguments: every argument occupies one cell; a bare
/// local-label argument additionally registers its own slot's offset in the
/// open block, and fails when none is open.
pub open spec fn spec_resolve_args(args: Seq<ArgV>, st: ResolveSt) -> Result<
    ResolveSt,
    CompileError,
>
    decreases args.len(),
{
    if args.len() == 0 {
        Ok(st)
    } else {
        match args[0] {
            ArgV::Lbl(l) => match st.cur {
                None => Err(CompileError { kind: ErrorKind::NoParentLabel, span: l.span }),
                Some(c) => spec_resolve_args(
                    args.drop_first(),
                    ResolveSt {
                        cur: Some(
                            (
                                c.0,
                                BlockV {
                                    start: c.1.start,
                                    labels: c.1.labels.push((l.inner, st.off)),
                                },
                            ),
                        ),
                        blocks: st.blocks,
                        off: st.off + 1,
                    },
                ),
            },
            ArgV::Lit(_) => spec_resolve_args(
                args.drop_first(),
                ResolveSt { off: st.off + 1, ..st },
            ),
        }
    }
}

/// One resolution step: labels manage the block structure, instructions and
/// standalone literals advance the running offset by their cell count. The
/// resolver has exactly one failure mode, `NoParentLabel`: capacity is the
/// tape builder's concern, not this pass's.
pub open spec fn spec_resolve_stmt(s: StmtV, st: ResolveSt) -> Result<ResolveSt, CompileError> {
    match s {
        StmtV::Label(l) => spec_resolve_label(l, st),
        StmtV::Inst(i) => spec_resolve_args(i.args, ResolveSt { off: st.off + 1, ..st }),
        StmtV::Lit(l) => Ok(ResolveSt { off: st.off + spec_lit_size(l), ..st }),
    }
}

/// The whole single pass over the desugared stream.
pub open spec fn spec_resolve(stmts: Seq<StmtV>, st: ResolveSt) -> Result<ResolveSt, CompileError>
    decreases stmts.len(),
{
    if stmts.len() == 0 {
        Ok(st)
    } else {
        match spec_resolve_stmt(stmts[0], st) {
            Err(e) => Err(e),
            Ok(st2) => spec_resolve(stmts.drop_first(), st2),
        }
    }
}

/// What symbol resolution returns: the closed block mapping and the total code
/// size, or the first error.
pub open spec fn spec_symtab(stmts: Seq<StmtV>) -> Result<SymTabV, CompileError> {
    match spec_resolve(stmts, spec_resolve_init()) {
        Err(e) => Err(e),
        Ok(st) => Ok(SymTabV { blocks: spec_close(st), code_size: st.off }),
    }
}

/// The resolver state is well formed for capacity `cap` when every offset it
/// holds lies within the tape.
pub open spec fn st_wf(st: ResolveSt, cap: int) -> bool {
    &&& 0 <= st.off <= cap
    &&& match st.cur {
        None => true,
        Some(c) => block_wf(c.1, cap),
    }
    &&& forall|j: int| 0 <= j < st.blocks.len() ==> block_wf((#[trigger] st.blocks[j]).1, cap)
}

/// The executable resolver state mirroring `ResolveSt`.
pub struct Resolver {
    pub cur: Option<(String, Block)>,
    pub blocks: Vec<(String, Block)>,
    pub off: usize,
}

pub open spec fn cur_view(c: Option<(String, Block)>) -> Option<(Seq<char>, BlockV)> {
    match c {
        None => None,
        Some(p) => Some((p.0@, block_view(p.1))),
    }
}

pub open spec fn resolver_view(r: Resolver) -> ResolveSt {
    ResolveSt { cur: cur_view(r.cur), blocks: block_entry_views(r.blocks@), off: r.off as int }
}

impl View for Resolver {
    type V = ResolveSt;

    open spec fn view(&self) -> ResolveSt {
        resolver_view(*self)
    }
}

impl Resolver {
    /// Registers a local label at offset `off` in the open block.
    fn add_local(&mut self, name: &String, off: usize)
        requires
            old(self).cur is Some,
        ensures
            final(self).blocks == old(self).blocks,
            final(self).off == old(self).off,
            final(self)@.cur == Some(
                (
                    old(self)@.cur.unwrap().0,
                    BlockV {
                        start: old(self)@.cur.unwrap().1.start,
                        labels: old(self)@.cur.unwrap().1.labels.push((name@, off as int)),
                    },
                ),
            ),
    {
        let prev = self.cur.take();
        match prev {
            Some(mut c) => {
                c.1.labels.push((name.clone(), off));
                proof {
                    assert(label_entry_views(c.1.labels@) =~= label_entry_views(
                        c.1.labels@.drop_last(),
                    ).push((name@, off as int)));
                }
                self.cur = Some(c);
            },
            None => {
                // unreachable: the caller holds an open block
                proof {
                    assert(false);
                }
            },
        }
    }

    /// Resolves the arguments of one instruction from index `k` on: each
    /// argument occupies one cell, and each bare local-label argument registers
    /// its own slot in the open block.
    fn resolve_args(&mut self, args: &Vec<Arg>, k: usize) -> (r: Result<(), CompileError>)
        requires
            k <= args@.len(),
            old(self)@.off + (args@.len() - k) <= MAX_CAPACITY,
        ensures
            match r {
                Ok(_) => {
                    &&& spec_resolve_args(arg_views(args@).skip(k as int), old(self)@) == Ok::<
                        ResolveSt,
                        CompileError,
                    >(final(self)@)
                    &&& final(self)@.off == old(self)@.off + (args@.len() - k)
                },
                Err(e) => spec_resolve_args(arg_views(args@).skip(k as int), old(self)@) == Err::<
                    ResolveSt,
                    CompileError,
                >(e),
            },
        decreases args@.len() - k,
    {
        if k == args.len() {
            proof {
                assert(arg_views(args@).skip(k as int) =~= Seq::<ArgV>::empty());
            }
            Ok(())
        } else {
            let ghost rest = arg_views(args@).skip(k as int);
            proof {
                assert(rest[0] == args@[k as int]@);
                assert(rest.drop_first() =~= arg_views(args@).skip(k as int + 1));
            }
            let arg = &args[k];
            match arg {
                Arg::Lbl(l) => {
                    if self.cur.is_some() {
                        let off = self.off;
                        self.add_local(&l.inner, off);
                        self.off = off + 1;
                        proof {
                            let c = old(self)@.cur.unwrap();
                            let st2 = ResolveSt {
                                cur: Some(
                                    (
                                        c.0,
                                        BlockV {
                                            start: c.1.start,
                                            labels: c.1.labels.push((l.inner@, old(self)@.off)),
                                        },
                                    ),
                                ),
                                blocks: old(self)@.blocks,
                                off: old(self)@.off + 1,
                            };
                            assert(self@ =~= st2);
                            assert(spec_resolve_args(rest, old(self)@) == spec_resolve_args(
                                rest.drop_first(),
                                st2,
                            ));
                        }
                        self.resolve_args(args, k + 1)
                    } else {
                        proof {
                            assert(old(self)@.cur is None);
                        }
                        Err(CompileError::new(ErrorKind::NoParentLabel, l.span))
                    }
                },
                Arg::Lit(_) => {
                    self.off = self.off + 1;
                    proof {
                        let st2 = ResolveSt { off: old(self)@.off + 1, ..old(self)@ };
                        assert(self@ =~= st2);
                        assert(spec_resolve_args(rest, old(self)@) == spec_resolve_args(
                            rest.drop_first(),
                            st2,
                        ));
                    }
                    self.resolve_args(args, k + 1)
                },
            }
        }
    }

    /// One resolution step over one desugared statement.
    fn resolve_stmt(&mut self, stmt: &Stmt) -> (r: Result<(), CompileError>)
        requires
            old(self)@.off + stmt_cells(stmt@) <= MAX_CAPACITY,
        ensures
            match r {
                Ok(_) => {
                    &&& spec_resolve_stmt(stmt@, old(self)@) == Ok::<ResolveSt, CompileError>(
                        final(self)@,
                    )
                    &&& final(self)@.off == old(self)@.off + stmt_cells(stmt@)
                },
                Err(e) => spec_resolve_stmt(stmt@, old(self)@) == Err::<ResolveSt, CompileError>(
                    e,
                ),
            },
    {
        match stmt {
            Stmt::Label(lbl) => {
                if is_local_name(&lbl.inner) {
                    if self.cur.is_some() {
                        let off = self.off;
                        self.add_local(&lbl.inner, off);
                        proof {
                            let c = old(self)@.cur.unwrap();
                            let st2 = ResolveSt {
                                cur: Some(
                                    (
                                        c.0,
                                        BlockV {
                                            start: c.1.start,
                                            labels: c.1.labels.push((lbl.inner@, old(self)@.off)),
                                        },
                                    ),
                                ),
                                ..old(self)@
                            };
                            assert(self@ =~= st2);
                        }
                        Ok(())
                    } else {
                        Err(CompileError::new(ErrorKind::NoParentLabel, lbl.span))
                    }
                } else {
                    let prev = self.cur.take();
                    let ghost mid_blocks = block_entry_views(self.blocks@);
                    match prev {
                        Some(c) => {
                            self.blocks.push(c);
                            proof {
                                assert(block_entry_views(self.blocks@) =~= block_entry_views(
                                    self.blocks@.drop_last(),
                                ).push((old(self)@.cur.unwrap().0, old(self)@.cur.unwrap().1)));
                            }
                        },
                        None => {},
                    }
                    let off = self.off;
                    self.cur = Some((lbl.inner.clone(), Block { start: off, labels: Vec::new() }));
                    proof {
                        let st2 = ResolveSt {
                            cur: Some(
                                (lbl.inner@, BlockV { start: old(self)@.off, labels: Seq::empty() }),
                            ),
                            blocks: spec_close(old(self)@),
                            off: old(self)@.off,
                        };
                        assert(label_entry_views(Seq::<(String, usize)>::empty())
                            =~= Seq::<(Seq<char>, int)>::empty());
                        assert(self@.cur.unwrap().1 =~= st2.cur.unwrap().1);
                        assert(self@ =~= st2);
                    }
                    Ok(())
                }
            },
            Stmt::Inst(inst) => {
                self.off = self.off + 1;
                proof {
                    let st2 = ResolveSt { off: old(self)@.off + 1, ..old(self)@ };
                    assert(self@ =~= st2);
                    assert(arg_views(inst.args@).skip(0) =~= arg_views(inst.args@));
                    assert(inst@.args == arg_views(inst.args@));
                }
                self.resolve_args(&inst.args, 0)
            },
            Stmt::Lit(lit) => {
                let sz = lit_size(lit);
                self.off = self.off + sz;
                proof {
                    let st2 = ResolveSt {
                        off: old(self)@.off + spec_lit_size(lit@),
                        ..old(self)@
                    };
                    assert(self@ =~= st2);
                }
                Ok(())
            },
        }
    }

    /// Resolves the statements from index `k` on.
    fn resolve_from(&mut self, stmts: &Vec<Stmt>, k: usize) -> (r: Result<(), CompileError>)
        requires
            k <= stmts@.len(),
            old(self)@.off + stmts_cells(stmt_views(stmts@).skip(k as int)) <= MAX_CAPACITY,
            old(self)@.off >= 0,
        ensures
            match r {
                Ok(_) => spec_resolve(stmt_views(stmts@).skip(k as int), old(self)@) == Ok::<
                    ResolveSt,
                    CompileError,
                >(final(self)@),
                Err(e) => spec_resolve(stmt_views(stmts@).skip(k as int), old(self)@) == Err::<
                    ResolveSt,
                    CompileError,
                >(e),
            },
        decreases stmts@.len() - k,
    {
        if k == stmts.len() {
            proof {
                assert(stmt_views(stmts@).skip(k as int) =~= Seq::<StmtV>::empty());
            }
            Ok(())
        } else {
            let ghost rest = stmt_views(stmts@).skip(k as int);
            proof {
                assert(rest[0] == stmts@[k as int]@);
                assert(rest.drop_first() =~= stmt_views(stmts@).skip(k as int + 1));
                lemma_stmts_cells_nonneg(rest.drop_first());
            }
            match self.resolve_stmt(&stmts[k]) {
                Err(e) => Err(e),
                Ok(_) => self.resolve_from(stmts, k + 1),
            }
        }
    }
}

/// Scans the desugared stream once, computing every statement's absolute tape
/// offset, partitioning the stream into named blocks, and computing the total
/// code size. Its only failure mode is `NoParentLabel`, for a local label
/// declared or used with no open block; capacity checks belong to the tape
/// builder. The machine limit: the stream's total cell footprint must fit a
/// signed 32-bit cell, or the offsets could not be emitted (`total_cells`
/// tests this at run time).
pub fn resolve_symbols(stmts: &Vec<Stmt>) -> (r: Result<SymTab, CompileError>)
    requires
        stmts_cells(stmt_views(stmts@)) <= MAX_CAPACITY as int,
    ensures
        match r {
            Ok(t) => {
                &&& spec_symtab(stmt_views(stmts@)) == Ok::<SymTabV, CompileError>(t@)
                &&& symtab_wf(t@, MAX_CAPACITY as int)
            },
            Err(e) => spec_symtab(stmt_views(stmts@)) == Err::<SymTabV, CompileError>(e),
        },
{
    let mut res = Resolver { cur: None, blocks: Vec::new(), off: 0 };
    proof {
        assert(block_entry_views(Seq::<(String, Block)>::empty())
            =~= Seq::<(Seq<char>, BlockV)>::empty());
        assert(res@ =~= spec_resolve_init());
        assert(stmt_views(stmts@).skip(0) =~= stmt_views(stmts@));
    }
    match res.resolve_from(stmts, 0) {
        Err(e) => Err(e),
        Ok(_) => {
            proof {
                lemma_resolve_wf(stmt_views(stmts@), spec_resolve_init(), MAX_CAPACITY as int);
            }
            let ghost st_final = res@;
            let prev = res.cur.take();
            match prev {
                Some(c) => {
                    res.blocks.push(c);
                    proof {
                        assert(block_entry_views(res.blocks@) =~= block_entry_views(
                            res.blocks@.drop_last(),
                        ).push((st_final.cur.unwrap().0, st_final.cur.unwrap().1)));
                    }
                },
                None => {},
            }
            let t = SymTab { blocks: res.blocks, code_size: res.off };
            proof {
                assert(t@ =~= (SymTabV { blocks: spec_close(st_final), code_size: st_final.off }));
            }
            Ok(t)
        },
    }
}

/// Walking an argument list keeps the state well formed: every offset it
/// registers lies within the tape.
proof fn lemma_resolve_args_wf(args: Seq<ArgV>, st: ResolveSt, cap: int)
    requires
        st_wf(st, cap),
        st.off + args.len() <= cap,
    ensures
        match spec_resolve_args(args, st) {
            Ok(st2) => st_wf(st2, cap) && st2.off == st.off + args.len(),
            Err(_) => true,
        },
    decreases args.len(),
{
    if args.len() == 0 {
    } else {
        match args[0] {
            ArgV::Lbl(l) => match st.cur {
                None => {},
                Some(c) => {
                    let st2 = ResolveSt {
                        cur: Some(
                            (
                                c.0,
                                BlockV {
                                    start: c.1.start,
                                    labels: c.1.labels.push((l.inner, st.off)),
                                },
                            ),
                        ),
                        blocks: st.blocks,
                        off: st.off + 1,
                    };
                    assert(block_wf(st2.cur.unwrap().1, cap));
                    lemma_resolve_args_wf(args.drop_first(), st2, cap);
                },
            },
            ArgV::Lit(_) => {
                lemma_resolve_args_wf(
                    args.drop_first(),
                    ResolveSt { off: st.off + 1, ..st },
                    cap,
                );
            },
        }
    }
}

/// One resolution step keeps the state well formed, as long as the
/// statement's cells still fit under `cap`, and advances the offset by
/// exactly that cell count.
proof fn lemma_resolve_stmt_wf(s: StmtV, st: ResolveSt, cap: int)
    requires
        st_wf(st, cap),
        st.off + stmt_cells(s) <= cap,
    ensures
        match spec_resolve_stmt(s, st) {
            Ok(st2) => st_wf(st2, cap) && st2.off == st.off + stmt_cells(s),
            Err(_) => true,
        },
{
    match s {
        StmtV::Label(l) => {
            if spec_is_local(l.inner) {
                match st.cur {
                    None => {},
                    Some(c) => {
                        assert(spec_resolve_label(l, st) matches Ok(st2) ==> st_wf(st2, cap));
                    },
                }
            } else {
                match st.cur {
                    None => {},
                    Some(c) => {
                        assert(forall|j: int|
                            0 <= j < spec_close(st).len() ==> block_wf(
                                (#[trigger] spec_close(st)[j]).1,
                                cap,
                            ));
                    },
                }
            }
        },
        StmtV::Inst(i) => {
            lemma_resolve_args_wf(i.args, ResolveSt { off: st.off + 1, ..st }, cap);
        },
        StmtV::Lit(_) => {},
    }
}

/// The whole resolution pass keeps the state well formed, as long as the
/// stream's total cell footprint fits under `cap`.
pub proof fn lemma_resolve_wf(stmts: Seq<StmtV>, st: ResolveSt, cap: int)
    requires
        st_wf(st, cap),
        st.off + stmts_cells(stmts) <= cap,
    ensures
        match spec_resolve(stmts, st) {
            Ok(st2) => st_wf(st2, cap),
            Err(_) => true,
        },
    decreases stmts.len(),
{
    if stmts.len() == 0 {
    } else {
        lemma_stmts_cells_nonneg(stmts.drop_first());
        lemma_resolve_stmt_wf(stmts[0], st, cap);
        match spec_resolve_stmt(stmts[0], st) {
            Err(_) => {},
            Ok(st2) => {
                lemma_resolve_wf(stmts.drop_first(), st2, cap);
            },
        }
    }
}

} // verus!
