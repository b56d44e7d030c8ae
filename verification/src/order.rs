//! Lexicographic ordering of attribute names.
//!
//! Schemas are reproducible across runs because collected attribute
//! definitions are kept sorted by name. The order used is the strict
//! lexicographic order on the names' Unicode scalar values.

use vstd::prelude::*;
use vstd::string::StrSliceExecFns;

verus! {

/// Strict lexicographic order on character sequences, comparing Unicode
/// scalar values position by position.
pub open spec fn char_seq_lt(a: Seq<char>, b: Seq<char>) -> bool
    decreases a.len(),
{
    if b.len() == 0 {
        false
    } else if a.len() == 0 {
        true
    } else if a[0] < b[0] {
        true
    } else if b[0] < a[0] {
        false
    } else {
        char_seq_lt(a.skip(1), b.skip(1))
    }
}

pub proof fn lemma_char_seq_lt_irrefl(a: Seq<char>)
    ensures
        !char_seq_lt(a, a),
    decreases a.len(),
{
    if a.len() > 0 {
        lemma_char_seq_lt_irrefl(a.skip(1));
    }
}

pub proof fn lemma_char_seq_lt_trans(a: Seq<char>, b: Seq<char>, c: Seq<char>)
    requires
        char_seq_lt(a, b),
        char_seq_lt(b, c),
    ensures
        char_seq_lt(a, c),
    decreases a.len(),
{
    if a.len() > 0 && b.len() > 0 && c.len() > 0 {
        if a[0] == b[0] && b[0] == c[0] {
            lemma_char_seq_lt_trans(a.skip(1), b.skip(1), c.skip(1));
        }
    }
}

/// In a chain of adjacent strict orderings every earlier element is below
/// every later one.
pub proof fn lemma_lt_chain(names: Seq<Seq<char>>, i: int, j: int)
    requires
        forall|k: int| 0 <= k < names.len() - 1 ==> #[trigger] char_seq_lt(names[k], names[k + 1]),
        0 <= i < j < names.len(),
    ensures
        char_seq_lt(names[i], names[j]),
    decreases j - i,
{
    assert(char_seq_lt(names[j - 1], names[j - 1 + 1]));
    if j > i + 1 {
        lemma_lt_chain(names, i, j - 1);
        lemma_char_seq_lt_trans(names[i], names[j - 1], names[j]);
    }
}

proof fn lemma_lt_from_diverge(a: Seq<char>, b: Seq<char>, i: int)
    requires
        0 <= i <= a.len(),
        i <= b.len(),
        forall|k: int| 0 <= k < i ==> a[k] == b[k],
        i < b.len(),
        i == a.len() || a[i] < b[i],
    ensures
        char_seq_lt(a, b),
    decreases i,
{
    if i > 0 {
        let a1 = a.skip(1);
        let b1 = b.skip(1);
        assert(forall|k: int| 0 <= k < i - 1 ==> #[trigger] a1[k] == b1[k]);
        lemma_lt_from_diverge(a1, b1, i - 1);
    }
}

/// The three-way outcome of comparing two attribute names.
pub enum NameOrder {
    Before,
    Same,
    After,
}

/// Three-way lexicographic comparison of two names.
pub fn compare_names(a: &str, b: &str) -> (r: NameOrder)
    ensures
        r is Before ==> char_seq_lt(a@, b@),
        r is After ==> char_seq_lt(b@, a@),
        r is Same <==> a@ == b@,
{
    let alen = a.unicode_len();
    let blen = b.unicode_len();
    let n = if alen < blen {
        alen
    } else {
        blen
    };
    let mut i: usize = 0;
    while i < n
        invariant
            i <= n,
            n == if alen < blen {
                alen
            } else {
                blen
            },
            alen == a@.len(),
            blen == b@.len(),
            forall|k: int| 0 <= k < i ==> a@[k] == b@[k],
        decreases n - i,
    {
        let ca = a.get_char(i);
        let cb = b.get_char(i);
        if ca < cb {
            proof {
                lemma_lt_from_diverge(a@, b@, i as int);
                if a@ == b@ {
                    lemma_char_seq_lt_irrefl(a@);
                }
            }
            return NameOrder::Before;
        }
        if cb < ca {
            proof {
                lemma_lt_from_diverge(b@, a@, i as int);
                if a@ == b@ {
                    lemma_char_seq_lt_irrefl(a@);
                }
            }
            return NameOrder::After;
        }
        i += 1;
    }
    if alen < blen {
        proof {
            lemma_lt_from_diverge(a@, b@, alen as int);
            if a@ == b@ {
                lemma_char_seq_lt_irrefl(a@);
            }
        }
        NameOrder::Before
    } else if blen < alen {
        proof {
            lemma_lt_from_diverge(b@, a@, blen as int);
            if a@ == b@ {
                lemma_char_seq_lt_irrefl(a@);
            }
        }
        NameOrder::After
    } else {
        proof {
            assert(a@ =~= b@);
        }
        NameOrder::Same
    }
}

} // verus!
