//! Label naming: the local/global classification and the deterministic
//! synthesis of fresh compiler-internal label names.

use vstd::prelude::*;
use vstd::string::StrSliceExecFns;
use vstd::string::StringExecFns;

verus! {

/// A label name is local to its block when it begins with `.` (user-written)
/// or `:` (compiler-synthesized); any other name is global and opens a block.
pub open spec fn spec_is_local(name: Seq<char>) -> bool {
    name.len() > 0 && (name[0] == '.' || name[0] == ':')
}

pub fn is_local_name(name: &String) -> (r: bool)
    ensures
        r == spec_is_local(name@),
{
    let s = name.as_str();
    if s.unicode_len() == 0 {
        false
    } else {
        let c = s.get_char(0);
        c == '.' || c == ':'
    }
}

pub open spec fn digit_char(d: int) -> char {
    if d == 0 {
        '0'
    } else if d == 1 {
        '1'
    } else if d == 2 {
        '2'
    } else if d == 3 {
        '3'
    } else if d == 4 {
        '4'
    } else if d == 5 {
        '5'
    } else if d == 6 {
        '6'
    } else if d == 7 {
        '7'
    } else if d == 8 {
        '8'
    } else {
        '9'
    }
}

/// The decimal rendering of a non-negative number, most significant digit first.
pub open spec fn spec_num(n: int) -> Seq<char>
    decreases n,
{
    if n < 10 {
        seq![digit_char(n)]
    } else {
        spec_num(n / 10).push(digit_char(n % 10))
    }
}

fn digit_str(d: usize) -> (r: &'static str)
    requires
        d < 10,
    ensures
        r@ == seq![digit_char(d as int)],
{
    let r: &'static str = match d {
        0 => "0",
        1 => "1",
        2 => "2",
        3 => "3",
        4 => "4",
        5 => "5",
        6 => "6",
        7 => "7",
        8 => "8",
        _ => "9",
    };
    proof {
        reveal_strlit("0");
        reveal_strlit("1");
        reveal_strlit("2");
        reveal_strlit("3");
        reveal_strlit("4");
        reveal_strlit("5");
        reveal_strlit("6");
        reveal_strlit("7");
        reveal_strlit("8");
        reveal_strlit("9");
        assert(r@ =~= seq![digit_char(d as int)]);
    }
    r
}

pub fn num_to_string(n: usize) -> (r: String)
    ensures
        r@ == spec_num(n as int),
    decreases n,
{
    if n < 10 {
        let mut s = String::new();
        s.append(digit_str(n));
        proof {
            assert(s@ =~= spec_num(n as int));
        }
        s
    } else {
        let mut s = num_to_string(n / 10);
        s.append(digit_str(n % 10));
        proof {
            assert(s@ =~= spec_num(n as int));
        }
        s
    }
}

pub open spec fn arg_prefix() -> Seq<char> {
    seq![':', '_', '_', 'a', 'r', 'g', '_']
}

pub open spec fn cpy_prefix() -> Seq<char> {
    seq![':', '_', '_', 'c', 'p', 'y', '_']
}

/// The name of the synthetic local label that stands for a desugared argument
/// slot, keyed by the emitting position in the output stream and the nesting
/// depth. The `:` prefix keeps it out of the user-writable namespace.
pub open spec fn spec_arg_name(pos: int, depth: int) -> Seq<char> {
    arg_prefix() + spec_num(pos) + seq!['_'] + spec_num(depth)
}

/// The name of a synthetic local label that receives one step of a dereference
/// chain, keyed the same way.
pub open spec fn spec_cpy_name(pos: int, depth: int) -> Seq<char> {
    cpy_prefix() + spec_num(pos) + seq!['_'] + spec_num(depth)
}

pub fn arg_name(pos: usize, depth: usize) -> (r: String)
    ensures
        r@ == spec_arg_name(pos as int, depth as int),
{
    let mut s = String::from_str(":__arg_");
    proof {
        reveal_strlit(":__arg_");
        assert(s@ =~= arg_prefix());
    }
    let p = num_to_string(pos);
    s.append(p.as_str());
    s.append("_");
    let d = num_to_string(depth);
    s.append(d.as_str());
    proof {
        reveal_strlit("_");
        assert(s@ =~= spec_arg_name(pos as int, depth as int));
    }
    s
}

pub fn cpy_name(pos: usize, depth: usize) -> (r: String)
    ensures
        r@ == spec_cpy_name(pos as int, depth as int),
{
    let mut s = String::from_str(":__cpy_");
    proof {
        reveal_strlit(":__cpy_");
        assert(s@ =~= cpy_prefix());
    }
    let p = num_to_string(pos);
    s.append(p.as_str());
    s.append("_");
    let d = num_to_string(depth);
    s.append(d.as_str());
    proof {
        reveal_strlit("_");
        assert(s@ =~= spec_cpy_name(pos as int, depth as int));
    }
    s
}

/// Synthetic names are always local: they begin with `:`.
pub proof fn lemma_synth_names_local(pos: int, depth: int)
    ensures
        spec_is_local(spec_arg_name(pos, depth)),
        spec_is_local(spec_cpy_name(pos, depth)),
{
}

} // verus!
