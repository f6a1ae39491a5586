//! The signature of an architecture test: the words of memory between the
//! symbols `begin_signature` and `end_signature`, read at a granularity of
//! 4 or 8 bytes.

use vstd::prelude::*;
use crate::bytes::le;
use crate::load::{SymTab, addr_of};
use crate::ram::{Ram, BASE_ADDR, RAM_SIZE};
use crate::vector::memory::{mem_read, mem_fault};

verus! {

/// Why a signature cannot be produced.
#[derive(Clone, Copy, Debug, PartialEq, Eq, Structural)]
pub enum SignatureError {
    /// The symbol table has no `begin_signature`.
    NoBegin,
    /// The symbol table has no `end_signature`.
    NoEnd,
    /// `end_signature` does not lie above `begin_signature`.
    InvalidRange { begin: u64, end: u64 },
    /// The word size is neither 4 nor 8.
    UnsupportedGranularity(u32),
    /// The region is not a whole number of words.
    Misaligned { size: u64, step: u64 },
    /// The word at this address cannot be read.
    ReadFault(u64),
}

/// The region `[begin, end)` and word size of the signature that the
/// symbols `s` describe at `granularity`: an error when either symbol is
/// missing (`begin_signature` is looked up first), when `end <= begin`,
/// when the word size is not 4 or 8, or when the region is not a whole
/// number of words, checked in that order.
pub open spec fn signature_range_spec(s: Set<(Seq<char>, u64)>, granularity: u32) -> Result<(u64, u64, u64), SignatureError> {
    match addr_of(s, "begin_signature"@) {
        None => Err(SignatureError::NoBegin),
        Some(b) => match addr_of(s, "end_signature"@) {
            None => Err(SignatureError::NoEnd),
            Some(e) => if e <= b {
                Err(SignatureError::InvalidRange { begin: b, end: e })
            } else if granularity != 4 && granularity != 8 {
                Err(SignatureError::UnsupportedGranularity(granularity))
            } else if (e - b) % (granularity as int) != 0 {
                Err(SignatureError::Misaligned { size: (e - b) as u64, step: granularity as u64 })
            } else {
                Ok((b, e, granularity as u64))
            },
        },
    }
}

/// The signature region of the symbol table `t` at `granularity`, as
/// `signature_range_spec` says.
pub fn signature_range(t: &SymTab, granularity: u32) -> (r: Result<(u64, u64, u64), SignatureError>)
    requires
        t.wf(),
    ensures
        r == signature_range_spec(t.contents(), granularity),
{
    let begin = match t.func_addr_by_name("begin_signature") {
        Some(a) => a,
        None => {
            return Err(SignatureError::NoBegin);
        },
    };
    let end = match t.func_addr_by_name("end_signature") {
        Some(a) => a,
        None => {
            return Err(SignatureError::NoEnd);
        },
    };
    if end <= begin {
        return Err(SignatureError::InvalidRange { begin, end });
    }
    let size = end - begin;
    let step: u64 = if granularity == 4 {
        4
    } else if granularity == 8 {
        8
    } else {
        return Err(SignatureError::UnsupportedGranularity(granularity));
    };
    if size % step != 0 {
        return Err(SignatureError::Misaligned { size, step });
    }
    Ok((begin, end, step))
}

/// The address of word `i` of a signature at `begin` with `step`-byte
/// words.
pub open spec fn word_addr(begin: u64, step: u64, i: int) -> u64 {
    (begin + i * step) as u64
}

/// The `step`-byte little-endian words of RAM from physical address
/// `begin` up to `end`, or the address of the first word that cannot be
/// read.
pub fn read_signature(mem: &Ram, begin: u64, end: u64, step: u64) -> (r: Result<Vec<u64>, SignatureError>)
    requires
        mem@.len() == RAM_SIZE,
        step == 4 || step == 8,
        begin < end,
        (end - begin) % (step as int) == 0,
    ensures
        match r {
            Ok(words) => {
                &&& words@.len() == (end - begin) / (step as int)
                &&& forall|i: int|
                    #![trigger words@[i]]
                    #![trigger word_addr(begin, step, i)]
                    0 <= i < words@.len() ==> mem_fault(word_addr(begin, step, i), step as nat, false) is None
                        && words@[i] == le(mem@, word_addr(begin, step, i) - BASE_ADDR, step as nat)
            },
            Err(e) => exists|i: int|
                0 <= i < (end - begin) / (step as int) && e == SignatureError::ReadFault(word_addr(begin, step, i))
                    && mem_fault(#[trigger] word_addr(begin, step, i), step as nat, false) is Some && forall|j: int|
                    0 <= j < i ==> mem_fault(#[trigger] word_addr(begin, step, j), step as nat, false) is None,
        },
{
    let mut words: Vec<u64> = Vec::new();
    let mut addr = begin;
    let ghost n = (end - begin) / (step as int);
    proof {
        vstd::arithmetic::div_mod::lemma_fundamental_div_mod((end - begin) as int, step as int);
    }
    while addr < end
        invariant
            mem@.len() == RAM_SIZE,
            step == 4 || step == 8,
            begin <= addr <= end,
            n == (end - begin) / (step as int),
            end - begin == n * step,
            addr == begin + words@.len() * step,
            forall|i: int|
                #![trigger words@[i]]
                #![trigger word_addr(begin, step, i)]
                0 <= i < words@.len() ==> mem_fault(word_addr(begin, step, i), step as nat, false) is None
                    && words@[i] == le(mem@, word_addr(begin, step, i) - BASE_ADDR, step as nat),
        decreases end - addr,
    {
        proof {
            assert(words@.len() < n) by (nonlinear_arith)
                requires
                    addr == begin + words@.len() * step,
                    addr < end,
                    end - begin == n * step,
                    step > 0,
            ;
        }
        match mem_read(mem, addr, step as usize) {
            Ok(v) => {
                let ghost before = words@;
                words.push(v);
                proof {
                    assert(word_addr(begin, step, before.len() as int) == addr);
                    assert forall|i: int|
                        0 <= i < words@.len() implies mem_fault(word_addr(begin, step, i), step as nat, false) is None
                            && #[trigger] words@[i] == le(mem@, word_addr(begin, step, i) - BASE_ADDR, step as nat) by {
                        if i < before.len() {
                            assert(words@[i] == before[i]);
                        } else {
                            assert(i == before.len());
                            assert(words@[i] == v);
                            assert(word_addr(begin, step, i) == addr);
                        }
                    }
                    assert(begin + words@.len() * step == addr + step) by (nonlinear_arith)
                        requires
                            words@.len() == before.len() + 1,
                            addr == begin + before.len() * step,
                    ;
                    assert(addr + step <= end) by (nonlinear_arith)
                        requires
                            addr == begin + before.len() * step,
                            before.len() < n,
                            end - begin == n * step,
                    ;
                }
                addr = addr + step;
            },
            Err(_) => {
                proof {
                    let i = words@.len() as int;
                    assert(word_addr(begin, step, i) == addr);
                    assert forall|j: int| 0 <= j < i implies mem_fault(
                        #[trigger] word_addr(begin, step, j),
                        step as nat,
                        false,
                    ) is None by {
                        assert(words@[j] == le(mem@, word_addr(begin, step, j) - BASE_ADDR, step as nat));
                    }
                }
                return Err(SignatureError::ReadFault(addr));
            },
        }
    }
    proof {
        assert(words@.len() == n) by (nonlinear_arith)
            requires
                addr == begin + words@.len() * step,
                addr >= end,
                addr <= end,
                end - begin == n * step,
                step > 0,
        ;
    }
    Ok(words)
}

} // verus!
