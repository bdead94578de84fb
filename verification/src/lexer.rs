//! The lexer: strips source text down to the instruction alphabet,
//! preserving order and discarding every other character as inert.

use vstd::prelude::*;
use vstd::string::StrSliceExecFns;
use crate::ops::is_symbol;

verus! {

/// The subsequence of `s` made of the alphabet symbols, in their
/// original order.
pub open spec fn filter_symbols(s: Seq<char>) -> Seq<char>
    decreases s.len(),
{
    if s.len() == 0 {
        Seq::empty()
    } else if is_symbol(s.last()) {
        filter_symbols(s.drop_last()).push(s.last())
    } else {
        filter_symbols(s.drop_last())
    }
}

/// Everything the filter keeps is an alphabet symbol.
pub proof fn lemma_filter_symbols_all(s: Seq<char>)
    ensures
        forall|j: int|
            0 <= j < filter_symbols(s).len() ==> is_symbol(#[trigger] filter_symbols(s)[j]),
    decreases s.len(),
{
    if s.len() == 0 {
    } else {
        lemma_filter_symbols_all(s.drop_last());
        let f = filter_symbols(s.drop_last());
        assert forall|j: int|
            0 <= j < filter_symbols(s).len() implies is_symbol(
            #[trigger] filter_symbols(s)[j],
        ) by {
            if j < f.len() {
                assert(filter_symbols(s)[j] == f[j]);
            }
        }
    }
}

/// Decide membership in the alphabet for one character.
pub fn is_symbol_char(c: char) -> (b: bool)
    ensures
        b == is_symbol(c),
{
    c == '+' || c == '-' || c == '>' || c == '<' || c == '.' || c == ',' || c == '[' || c == ']'
}

/// Filter raw source text down to its alphabet symbols. An empty
/// result is a valid output; the caller interprets it as "no
/// executable program".
pub fn lexed(source: &str) -> (r: Vec<char>)
    ensures
        r@ == filter_symbols(source@),
{
    let n = source.unicode_len();
    let mut out: Vec<char> = Vec::new();
    let mut i: usize = 0;
    while i < n
        invariant
            n == source@.len(),
            i <= n,
            out@ == filter_symbols(source@.take(i as int)),
        decreases n - i,
    {
        let c = source.get_char(i);
        proof {
            assert(source@.take(i + 1).drop_last() =~= source@.take(i as int));
            assert(source@.take(i + 1).last() == c);
        }
        if is_symbol_char(c) {
            out.push(c);
        }
        i = i + 1;
    }
    proof {
        assert(source@.take(n as int) =~= source@);
    }
    out
}

} // verus!
