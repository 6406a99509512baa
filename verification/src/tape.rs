//! The fixed-size tape image and its two bump cursors: a main cursor for the
//! code region and a data cursor for the trailing data region.

use vstd::prelude::*;
use vstd::pervasive::VecAdditionalExecFns;
use vstd::string::StrSliceExecFns;

verus! {

/// The largest tape capacity: every cell address must fit a signed 32-bit cell.
pub const MAX_CAPACITY: usize = 0x7fff_ffff;

/// The numeric value of a character on the tape: its code point.
pub open spec fn char_val(c: char) -> i32 {
    (c as u32) as i32
}

pub fn char_to_i32(c: char) -> (r: i32)
    ensures
        r == char_val(c),
{
    (c as u32) as i32
}

/// The state of the tape image under construction: the cells, the main cursor
/// for the code region, the data cursor for the trailing data region, and the
/// fixed boundary between the two regions.
#[verifier::ext_equal]
pub struct TapeSt {
    pub tape: Seq<i32>,
    pub idx: int,
    pub data_idx: int,
    pub data_start: int,
}

/// The two cursors advance over disjoint ranges of one fixed-size array and
/// never cross: code cells in `[0, data_start)`, data cells in
/// `[data_start, len)`.
pub open spec fn tape_wf(t: TapeSt) -> bool {
    0 <= t.idx <= t.data_start <= t.data_idx <= t.tape.len()
}

/// Cells not yet written still hold their initial zero.
pub open spec fn tape_zeros(t: TapeSt) -> bool {
    &&& forall|i: int| t.idx <= i < t.data_start ==> t.tape[i] == 0
    &&& forall|i: int| t.data_idx <= i < t.tape.len() ==> t.tape[i] == 0
}

/// One write at the main cursor; fails when the code region is full.
pub open spec fn spec_write(t: TapeSt, val: i32) -> Option<(int, TapeSt)> {
    if t.idx < t.data_start {
        Some((t.idx, TapeSt { tape: t.tape.update(t.idx, val), idx: t.idx + 1, ..t }))
    } else {
        None
    }
}

/// One write at the data cursor; fails when the tape is full.
pub open spec fn spec_write_end(t: TapeSt, val: i32) -> Option<(int, TapeSt)> {
    if t.data_idx < t.tape.len() {
        Some(
            (
                t.data_idx,
                TapeSt { tape: t.tape.update(t.data_idx, val), data_idx: t.data_idx + 1, ..t },
            ),
        )
    } else {
        None
    }
}

/// The tape after the code points of `s` are written at positions
/// `at .. at + s.len()`.
pub open spec fn write_chars(tape: Seq<i32>, at: int, s: Seq<char>) -> Seq<i32> {
    Seq::new(
        tape.len(),
        |i: int|
            if at <= i < at + s.len() {
                char_val(s[i - at])
            } else {
                tape[i]
            },
    )
}

/// A string written at the main cursor, one cell per character, returning the
/// address of the first; fails when it does not fit the code region.
pub open spec fn spec_write_str(t: TapeSt, s: Seq<char>) -> Option<(int, TapeSt)> {
    if t.idx + s.len() <= t.data_start {
        Some(
            (
                t.idx,
                TapeSt { tape: write_chars(t.tape, t.idx, s), idx: t.idx + s.len(), ..t },
            ),
        )
    } else {
        None
    }
}

/// A string allocated at the data cursor, one cell per character, returning the
/// address of the first; fails when it does not fit the tape.
pub open spec fn spec_write_end_str(t: TapeSt, s: Seq<char>) -> Option<(int, TapeSt)> {
    if t.data_idx + s.len() <= t.tape.len() {
        Some(
            (
                t.data_idx,
                TapeSt {
                    tape: write_chars(t.tape, t.data_idx, s),
                    data_idx: t.data_idx + s.len(),
                    ..t
                },
            ),
        )
    } else {
        None
    }
}

/// A cell is readable only when it was written earlier in the single emission
/// pass: strictly below the main cursor, or a data cell strictly below the
/// data cursor.
pub open spec fn spec_val_at(t: TapeSt, idx: int) -> Option<i32> {
    if 0 <= idx < t.idx || t.data_start <= idx < t.data_idx {
        Some(t.tape[idx])
    } else {
        None
    }
}

/// The fixed-size tape image and its two cursors. Writes are bounds-checked on
/// every cell; the cursors only advance.
#[derive(Debug)]
pub struct TapeWriter {
    pub tape: Vec<i32>,
    pub idx: usize,
    pub data_idx: usize,
    pub data_start: usize,
}

pub open spec fn tape_writer_view(t: TapeWriter) -> TapeSt {
    TapeSt {
        tape: t.tape@,
        idx: t.idx as int,
        data_idx: t.data_idx as int,
        data_start: t.data_start as int,
    }
}

impl View for TapeWriter {
    type V = TapeSt;

    open spec fn view(&self) -> TapeSt {
        tape_writer_view(*self)
    }
}

impl TapeWriter {
    /// A zero-filled tape of the given capacity, with the data cursor placed at
    /// the end of the code region.
    pub fn new(capacity: usize, data_start: usize) -> (r: TapeWriter)
        requires
            data_start <= capacity,
        ensures
            r@ == (TapeSt {
                tape: Seq::new(capacity as nat, |i: int| 0i32),
                idx: 0,
                data_idx: data_start as int,
                data_start: data_start as int,
            }),
            tape_wf(r@),
            tape_zeros(r@),
    {
        let mut tape: Vec<i32> = Vec::new();
        while tape.len() < capacity
            invariant
                tape@.len() <= capacity as int,
                forall|i: int| 0 <= i < tape@.len() ==> tape@[i] == 0,
            decreases capacity - tape@.len(),
        {
            tape.push(0);
        }
        let r = TapeWriter { tape, idx: 0, data_idx: data_start, data_start };
        proof {
            assert(r@.tape =~= Seq::new(capacity as nat, |i: int| 0i32));
        }
        r
    }

    /// The value of an already-written cell; `None` for a cell the single
    /// emission pass has not reached yet.
    pub fn val_at(&self, idx: usize) -> (r: Option<i32>)
        requires
            tape_wf(self@),
        ensures
            r == spec_val_at(self@, idx as int),
    {
        if idx < self.idx || (self.data_start <= idx && idx < self.data_idx) {
            Some(self.tape[idx])
        } else {
            None
        }
    }

    /// Writes one cell at the main cursor and returns its address.
    pub fn write(&mut self, val: i32) -> (r: Option<usize>)
        requires
            tape_wf(old(self)@),
        ensures
            match r {
                Some(i) => spec_write(old(self)@, val) == Some((i as int, final(self)@)),
                None => spec_write(old(self)@, val) is None && final(self)@ == old(self)@,
            },
    {
        if self.idx < self.data_start {
            let i = self.idx;
            self.tape.set(i, val);
            self.idx = i + 1;
            Some(i)
        } else {
            None
        }
    }

    /// Writes one cell at the data cursor and returns its address.
    pub fn write_end(&mut self, val: i32) -> (r: Option<usize>)
        requires
            tape_wf(old(self)@),
        ensures
            match r {
                Some(i) => spec_write_end(old(self)@, val) == Some((i as int, final(self)@)),
                None => spec_write_end(old(self)@, val) is None && final(self)@ == old(self)@,
            },
    {
        if self.data_idx < self.tape.len() {
            let i = self.data_idx;
            self.tape.set(i, val);
            self.data_idx = i + 1;
            Some(i)
        } else {
            None
        }
    }

    /// Writes a string's code points at the main cursor and returns the address
    /// of the first character.
    pub fn write_str(&mut self, s: &str) -> (r: Option<usize>)
        requires
            tape_wf(old(self)@),
        ensures
            match r {
                Some(i) => spec_write_str(old(self)@, s@) == Some((i as int, final(self)@)),
                None => spec_write_str(old(self)@, s@) is None && final(self)@ == old(self)@,
            },
    {
        let n = s.unicode_len();
        if n > self.data_start - self.idx {
            return None;
        }
        let start = self.idx;
        let mut j: usize = 0;
        while j < n
            invariant
                j <= n,
                n == s@.len(),
                start + n <= self.data_start,
                self.data_start <= self.data_idx,
                self.data_idx <= self.tape@.len(),
                self.idx == start + j,
                self.data_idx == old(self).data_idx,
                self.data_start == old(self).data_start,
                self.tape@.len() == old(self).tape@.len(),
                self.tape@ =~= write_chars(old(self)@.tape, start as int, s@.take(j as int)),
            decreases n - j,
        {
            let c = s.get_char(j);
            let v = char_to_i32(c);
            let i = self.idx;
            self.tape.set(i, v);
            self.idx = i + 1;
            j = j + 1;
            proof {
                assert(self.tape@ =~= write_chars(old(self)@.tape, start as int, s@.take(j as int)));
            }
        }
        proof {
            assert(s@.take(n as int) =~= s@);
            assert(self@ =~= spec_write_str(old(self)@, s@).unwrap().1);
        }
        Some(start)
    }

    /// Allocates a string's code points at the data cursor and returns the
    /// address of the first character.
    pub fn write_end_str(&mut self, s: &str) -> (r: Option<usize>)
        requires
            tape_wf(old(self)@),
        ensures
            match r {
                Some(i) => spec_write_end_str(old(self)@, s@) == Some((i as int, final(self)@)),
                None => spec_write_end_str(old(self)@, s@) is None && final(self)@ == old(self)@,
            },
    {
        let n = s.unicode_len();
        if n > self.tape.len() - self.data_idx {
            return None;
        }
        let start = self.data_idx;
        let mut j: usize = 0;
        while j < n
            invariant
                j <= n,
                n == s@.len(),
                start + n <= self.tape@.len(),
                self.tape@.len() <= usize::MAX as int,
                self.idx <= self.data_start,
                self.data_start <= start,
                self.data_idx == start + j,
                self.idx == old(self).idx,
                self.data_start == old(self).data_start,
                self.tape@.len() == old(self).tape@.len(),
                self.tape@ =~= write_chars(old(self)@.tape, start as int, s@.take(j as int)),
            decreases n - j,
        {
            let c = s.get_char(j);
            let v = char_to_i32(c);
            let i = self.data_idx;
            self.tape.set(i, v);
            self.data_idx = i + 1;
            j = j + 1;
            proof {
                assert(self.tape@ =~= write_chars(old(self)@.tape, start as int, s@.take(j as int)));
            }
        }
        proof {
            assert(s@.take(n as int) =~= s@);
            assert(self@ =~= spec_write_end_str(old(self)@, s@).unwrap().1);
        }
        Some(start)
    }
}

/// Every write preserves well-formedness, leaves already-written cells in
/// place, and keeps unwritten cells zero.
pub proof fn lemma_write_preserves(t: TapeSt, val: i32)
    requires
        tape_wf(t),
    ensures
        match spec_write(t, val) {
            Some(r) => tape_wf(r.1) && (tape_zeros(t) ==> tape_zeros(r.1)) && r.1.tape.len()
                == t.tape.len() && r.1.data_start == t.data_start && r.1.idx == t.idx + 1
                && r.1.data_idx == t.data_idx && r.1.tape[t.idx] == val && (forall|j: int|
                0 <= j < t.idx ==> r.1.tape[j] == t.tape[j]) && (forall|j: int|
                t.data_start <= j < t.data_idx ==> r.1.tape[j] == t.tape[j]),
            None => true,
        },
        match spec_write_end(t, val) {
            Some(r) => tape_wf(r.1) && (tape_zeros(t) ==> tape_zeros(r.1)) && r.1.tape.len()
                == t.tape.len() && r.1.data_start == t.data_start && r.1.idx == t.idx
                && r.1.data_idx == t.data_idx + 1 && (forall|j: int|
                0 <= j < t.idx ==> r.1.tape[j] == t.tape[j]) && (forall|j: int|
                t.data_start <= j < t.data_idx ==> r.1.tape[j] == t.tape[j]),
            None => true,
        },
{
}

/// Every string write preserves well-formedness and keeps unwritten cells zero.
pub proof fn lemma_write_str_preserves(t: TapeSt, s: Seq<char>)
    requires
        tape_wf(t),
    ensures
        match spec_write_str(t, s) {
            Some(r) => tape_wf(r.1) && (tape_zeros(t) ==> tape_zeros(r.1)) && r.1.tape.len()
                == t.tape.len() && r.1.data_start == t.data_start && r.1.idx == t.idx + s.len()
                && r.1.data_idx == t.data_idx && (forall|j: int|
                0 <= j < t.idx ==> r.1.tape[j] == t.tape[j]) && (forall|j: int|
                t.data_start <= j < t.data_idx ==> r.1.tape[j] == t.tape[j]),
            None => true,
        },
        match spec_write_end_str(t, s) {
            Some(r) => tape_wf(r.1) && (tape_zeros(t) ==> tape_zeros(r.1)) && r.1.tape.len()
                == t.tape.len() && r.1.data_start == t.data_start && r.1.idx == t.idx
                && r.1.data_idx == t.data_idx + s.len() && (forall|j: int|
                0 <= j < t.idx ==> r.1.tape[j] == t.tape[j]) && (forall|j: int|
                t.data_start <= j < t.data_idx ==> r.1.tape[j] == t.tape[j]),
            None => true,
        },
{
}

} // verus!
