//! The ids of a document's `<defs>` entries -- hatch patterns (`hp`),
//! gradients (`hg`), viewport clips (`vp`) -- each a prefix and a running
//! number, so that no two entries of one document share an id.

use vstd::prelude::*;
use crate::chars::{chars_of, decimal, is_digit, lemma_decimal, lemma_decimal_injective, push_decimal, string_of};

verus! {

/// No decimal digit in `s`.
pub open spec fn digit_free(s: Seq<char>) -> bool {
    forall|k: int| 0 <= k < s.len() ==> !is_digit(#[trigger] s[k])
}

/// The id the entry numbered `n` under `prefix` gets: the prefix, then the
/// number in decimal (`hp3`).
pub open spec fn def_id_of(prefix: Seq<char>, n: nat) -> Seq<char> {
    prefix + decimal(n)
}

/// The running number a document's `<defs>` ids are drawn from.
#[derive(Debug, Clone, Copy)]
pub struct DefIds {
    /// The number the next id is given.
    pub next: u32,
}

impl DefIds {
    /// A document with no `<defs>` entry yet: ids start at 0.
    pub fn new() -> (r: DefIds)
        ensures
            r.next == 0,
    {
        DefIds { next: 0 }
    }

    /// A document-unique id for a `<defs>` entry, e.g. `hp3`: `prefix`,
    /// then the running number, which moves on by one.
    pub fn next_def_id(&mut self, prefix: &str) -> (r: String)
        requires
            old(self).next < u32::MAX,
        ensures
            r@ == def_id_of(prefix@, old(self).next as nat),
            final(self).next == old(self).next + 1,
    {
        let mut id = chars_of(prefix);
        push_decimal(&mut id, self.next as u64);
        self.next = self.next + 1;
        string_of(id.as_slice())
    }
}

/// Ids are never shared: two ids made from digit-free prefixes are the
/// same only when both the prefix and the number are -- so the distinct
/// numbers one document hands out give distinct ids, whatever the prefix.
pub proof fn lemma_def_ids_are_unique(p: Seq<char>, m: nat, q: Seq<char>, n: nat)
    requires
        digit_free(p),
        digit_free(q),
        def_id_of(p, m) == def_id_of(q, n),
    ensures
        p == q,
        m == n,
{
    lemma_decimal(m);
    lemma_decimal(n);
    let s = def_id_of(p, m);
    let t = def_id_of(q, n);
    if p.len() < q.len() {
        let i = p.len() as int;
        assert(s[i] == decimal(m)[0]);
        assert(is_digit(decimal(m)[0]));
        assert(t[i] == q[i]);
        assert(!is_digit(q[i]));
    } else if q.len() < p.len() {
        let i = q.len() as int;
        assert(t[i] == decimal(n)[0]);
        assert(is_digit(decimal(n)[0]));
        assert(s[i] == p[i]);
        assert(!is_digit(p[i]));
    }
    assert(p =~= s.take(p.len() as int));
    assert(q =~= t.take(q.len() as int));
    assert(decimal(m) =~= s.skip(p.len() as int));
    assert(decimal(n) =~= t.skip(q.len() as int));
    lemma_decimal_injective(m, n);
}

} // verus!
