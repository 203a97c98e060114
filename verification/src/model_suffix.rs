//! Model names may carry a context-size suffix such as `[1M]`; the provider's
//! model list is compared without it.
use vstd::prelude::*;

use crate::text::{char_is_ascii_digit, is_ascii_digit};

verus! {

/// A context-size suffix body: one or more ASCII digits and a unit `K` or `M`.
pub open spec fn valid_size_suffix(x: Seq<char>) -> bool {
    &&& x.len() >= 2
    &&& forall|i: int| 0 <= i < x.len() - 1 ==> is_ascii_digit(#[trigger] x[i])
    &&& (x.last() == 'K' || x.last() == 'k' || x.last() == 'M' || x.last() == 'm')
}

/// `s` splits at `b` into a non-empty base name and `[suffix]`.
pub open spec fn suffix_split_at(s: Seq<char>, b: int) -> bool {
    &&& 1 <= b < s.len() - 1
    &&& s.last() == ']'
    &&& s[b] == '['
    &&& valid_size_suffix(s.subrange(b + 1, s.len() - 1))
}

/// The model name without a valid context-size suffix.
pub open spec fn model_base(s: Seq<char>) -> Seq<char> {
    if exists|b: int| suffix_split_at(s, b) {
        s.subrange(0, choose|b: int| suffix_split_at(s, b))
    } else {
        s
    }
}

/// There is at most one place where a name splits off a size suffix.
proof fn lemma_split_unique(s: Seq<char>, b1: int, b2: int)
    requires
        suffix_split_at(s, b1),
        suffix_split_at(s, b2),
    ensures
        b1 == b2,
{
    if b1 < b2 {
        let x = s.subrange(b1 + 1, s.len() - 1);
        assert(x[b2 - b1 - 1] == s[b2]);
        if b2 - b1 - 1 < x.len() - 1 {
            assert(is_ascii_digit(x[b2 - b1 - 1]));
        }
    } else if b2 < b1 {
        let x = s.subrange(b2 + 1, s.len() - 1);
        assert(x[b1 - b2 - 1] == s[b1]);
        if b1 - b2 - 1 < x.len() - 1 {
            assert(is_ascii_digit(x[b1 - b2 - 1]));
        }
    }
}

/// The characters of `model` without a valid context-size suffix such as `[1M]`.
pub fn model_base_chars(model: &[char]) -> (out: Vec<char>)
    ensures
        out@ == model_base(model@),
{
    let n = model.len();
    let ghost s = model@;
    if n >= 4 && model[n - 1] == ']' {
        let u = model[n - 2];
        if u == 'K' || u == 'k' || u == 'M' || u == 'm' {
            let mut k: usize = n - 2;
            while k > 0 && char_is_ascii_digit(model[k - 1])
                invariant
                    k <= n - 2,
                    n == s.len(),
                    s == model@,
                    forall|i: int| k <= i < n - 2 ==> is_ascii_digit(#[trigger] s[i]),
                decreases k,
            {
                k = k - 1;
            }
            if k >= 2 && k < n - 2 && model[k - 1] == '[' {
                let b = k - 1;
                proof {
                    let x = s.subrange(b + 1, s.len() - 1);
                    assert forall|i: int| 0 <= i < x.len() - 1 implies is_ascii_digit(#[trigger] x[i]) by {
                        assert(x[i] == s[b + 1 + i]);
                    }
                    assert(x.last() == s[n - 2]);
                    assert(suffix_split_at(s, b as int));
                    let c = choose|c: int| suffix_split_at(s, c);
                    lemma_split_unique(s, b as int, c);
                }
                let mut out: Vec<char> = Vec::new();
                let mut i: usize = 0;
                while i < b
                    invariant
                        i <= b < n,
                        n == s.len(),
                        s == model@,
                        out@ == s.subrange(0, i as int),
                    decreases b - i,
                {
                    out.push(model[i]);
                    i = i + 1;
                    assert(out@ =~= s.subrange(0, i as int));
                }
                return out;
            }
            proof {
                assert forall|b: int| !suffix_split_at(s, b) by {
                    if suffix_split_at(s, b) {
                        let x = s.subrange(b + 1, s.len() - 1);
                        if b + 1 < k {
                            // a digit run that reaches b + 1 must have stopped at a non-digit
                            assert(x[k - 1 - (b + 1)] == s[k - 1]);
                            assert(is_ascii_digit(s[k - 1]));
                        } else if b + 1 == k {
                            assert(s[k - 1] == '[');
                        } else {
                            assert(s[b] == '[');
                            assert(is_ascii_digit(s[b]));
                        }
                    }
                }
            }
        } else {
            proof {
                assert forall|b: int| !suffix_split_at(s, b) by {
                    if suffix_split_at(s, b) {
                        assert(s.subrange(b + 1, s.len() - 1).last() == s[n - 2]);
                    }
                }
            }
        }
    }
    let mut out: Vec<char> = Vec::new();
    let mut i: usize = 0;
    while i < n
        invariant
            i <= n,
            n == s.len(),
            s == model@,
            out@ == s.subrange(0, i as int),
        decreases n - i,
    {
        out.push(model[i]);
        i = i + 1;
        assert(out@ =~= s.subrange(0, i as int));
    }
    assert(out@ =~= s);
    out
}

} // verus!
