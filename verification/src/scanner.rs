//! Structural block scanner.
//!
//! Given a position immediately after a declaration's signature, the scanner
//! finds the first opening brace, then walks forward with a brace-depth
//! counter and returns the half-open range of text that ends at the closing
//! brace which first returns the counter to zero. No match before the end of
//! the input means the declaration has no well-formed body.

use vstd::prelude::*;

verus! {

/// Net brace depth of a character sequence: opening braces count +1,
/// closing braces -1.
pub open spec fn brace_depth(s: Seq<char>) -> int
    decreases s.len(),
{
    if s.len() == 0 {
        0
    } else {
        brace_depth(s.drop_last()) + if s[s.len() - 1] == '{' {
            1int
        } else if s[s.len() - 1] == '}' {
            -1int
        } else {
            0int
        }
    }
}

/// A sequence is brace-balanced when its net depth is zero and no prefix
/// closes more braces than it has opened.
pub open spec fn brace_balanced(s: Seq<char>) -> bool {
    brace_depth(s) == 0 && forall|k: int| 0 <= k <= s.len() ==> brace_depth(#[trigger] s.take(k)) >= 0
}

proof fn lemma_depth_extend(h: Seq<char>, a: int, k: int)
    requires
        0 <= a <= k < h.len(),
    ensures
        brace_depth(h.subrange(a, k + 1)) == brace_depth(h.subrange(a, k)) + if h[k] == '{' {
            1int
        } else if h[k] == '}' {
            -1int
        } else {
            0int
        },
{
    assert(h.subrange(a, k + 1).drop_last() =~= h.subrange(a, k));
}

/// Position of the first opening brace at or after `i`, or the length of the
/// input when there is none.
pub open spec fn first_open_from(h: Seq<char>, i: int) -> int
    decreases h.len() - i,
        when 0 <= i <= h.len()
{
    if i >= h.len() {
        h.len() as int
    } else if h[i] == '{' {
        i
    } else {
        first_open_from(h, i + 1)
    }
}

/// Position of the closing brace that returns the depth counter `d` to zero,
/// scanning from `k`, or the length of the input when there is none.
pub open spec fn close_from(h: Seq<char>, k: int, d: int) -> int
    decreases h.len() - k,
        when 0 <= k <= h.len()
{
    if k >= h.len() {
        h.len() as int
    } else if h[k] == '}' && d == 1 {
        k
    } else {
        close_from(
            h,
            k + 1,
            d + if h[k] == '{' {
                1int
            } else if h[k] == '}' {
                -1int
            } else {
                0int
            },
        )
    }
}

/// The half-open body range of the declaration whose signature ends at
/// `start`: from just after the first opening brace at or after `start` to
/// the matching closing brace. `None` when no opening brace follows or the
/// block is never closed.
pub open spec fn block_of(h: Seq<char>, start: int) -> Option<(int, int)> {
    let o = first_open_from(h, start);
    if o == h.len() {
        None
    } else {
        let e = close_from(h, o + 1, 1);
        if e == h.len() {
            None
        } else {
            Some((o + 1, e))
        }
    }
}

proof fn lemma_first_open_props(h: Seq<char>, i: int)
    requires
        0 <= i <= h.len(),
    ensures
        i <= first_open_from(h, i) <= h.len(),
        first_open_from(h, i) < h.len() ==> h[first_open_from(h, i)] == '{',
        forall|k: int| i <= k < first_open_from(h, i) ==> h[k] != '{',
    decreases h.len() - i,
{
    if i < h.len() && h[i] != '{' {
        lemma_first_open_props(h, i + 1);
    }
}

proof fn lemma_close_from_props(h: Seq<char>, a: int, k: int, d: int)
    requires
        0 <= a <= k <= h.len(),
        d == 1 + brace_depth(h.subrange(a, k)),
        d >= 1,
    ensures
        ({
            let p = close_from(h, k, d);
            &&& k <= p <= h.len()
            &&& p < h.len() ==> h[p] == '}' && brace_depth(h.subrange(a, p)) == 0
            &&& forall|q: int|
                k <= q < p ==> !(h[q] == '}' && brace_depth(#[trigger] h.subrange(a, q)) == 0)
            &&& forall|q: int| k <= q <= p && q <= h.len() ==> brace_depth(#[trigger] h.subrange(a, q)) >= 0
            &&& p == h.len() ==> forall|q: int|
                k <= q < h.len() ==> !(h[q] == '}' && brace_depth(#[trigger] h.subrange(a, q)) == 0)
        }),
    decreases h.len() - k,
{
    if k >= h.len() {
    } else if h[k] == '}' && d == 1 {
    } else {
        lemma_depth_extend(h, a, k);
        let d2 = d + if h[k] == '{' {
            1int
        } else if h[k] == '}' {
            -1int
        } else {
            0int
        };
        assert(d2 >= 1);
        lemma_close_from_props(h, a, k + 1, d2);
    }
}

/// Brace balance of a scanned body: when a block is found, the extracted
/// range is brace-balanced, lies strictly inside the enclosing brace pair,
/// and ends at the first closing brace that returns the depth to zero.
pub proof fn lemma_block_brace_balance(h: Seq<char>, start: int)
    requires
        0 <= start <= h.len(),
        block_of(h, start) is Some,
    ensures
        ({
            let (a, b) = block_of(h, start)->Some_0;
            &&& start <= a - 1 < b < h.len()
            &&& h[a - 1] == '{'
            &&& h[b] == '}'
            &&& brace_balanced(h.subrange(a, b))
            &&& forall|q: int|
                a <= q < b ==> !(h[q] == '}' && brace_depth(#[trigger] h.subrange(a, q)) == 0)
        }),
{
    let o = first_open_from(h, start);
    lemma_first_open_props(h, start);
    let a = o + 1;
    assert(h.subrange(a, a) =~= Seq::<char>::empty());
    lemma_close_from_props(h, a, a, 1);
    let b = close_from(h, a, 1);
    let body = h.subrange(a, b);
    assert forall|k: int| 0 <= k <= body.len() implies brace_depth(#[trigger] body.take(k)) >= 0 by {
        assert(body.take(k) =~= h.subrange(a, a + k));
    }
}

/// Finds the body of the declaration whose signature ends at `start`.
pub fn find_block(h: &Vec<char>, start: usize) -> (r: Option<(usize, usize)>)
    requires
        start <= h@.len(),
    ensures
        ({
            match r {
                Some((a, b)) => block_of(h@, start as int) == Some((a as int, b as int)) && start
                    < a as int <= b < h@.len(),
                None => block_of(h@, start as int) is None,
            }
        }),
{
    let n = h.len();
    let mut i: usize = start;
    while i < n && h[i] != '{'
        invariant
            start <= i <= n == h@.len(),
            forall|k: int| start <= k < i ==> h@[k] != '{',
            first_open_from(h@, start as int) == first_open_from(h@, i as int),
        decreases n - i,
    {
        i = i + 1;
    }
    if i == n {
        return None;
    }
    let o = i;
    assert(first_open_from(h@, start as int) == o as int);
    let mut k: usize = o + 1;
    let mut d: usize = 1;
    proof {
        assert(h@.subrange(o + 1, o + 1) =~= Seq::<char>::empty());
    }
    while k < n
        invariant
            o + 1 <= k <= n == h@.len(),
            start <= o < n,
            first_open_from(h@, start as int) == o as int,
            1 <= d <= k,
            d == 1 + brace_depth(h@.subrange(o + 1, k as int)),
            close_from(h@, o + 1, 1) == close_from(h@, k as int, d as int),
        decreases n - k,
    {
        let c = h[k];
        if c == '}' && d == 1 {
            assert(close_from(h@, k as int, d as int) == k as int);
            return Some((o + 1, k));
        }
        proof {
            lemma_depth_extend(h@, o + 1, k as int);
        }
        if c == '{' {
            d = d + 1;
        } else if c == '}' {
            d = d - 1;
        }
        k = k + 1;
    }
    assert(close_from(h@, o + 1, 1) == h@.len());
    None
}

} // verus!
