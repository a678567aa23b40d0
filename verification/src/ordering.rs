//! Stable sorting by keys: numbers, or byte strings in lexicographic order.
use vstd::prelude::*;

verus! {

/// A list of keys with a strict order on them.
pub trait Keys {
    /// How many keys there are.
    spec fn size(&self) -> nat;

    /// Key `a` is smaller than key `b`.
    spec fn less(&self, a: int, b: int) -> bool;

    proof fn less_is_strict_order(&self)
        ensures
            forall|a: int| !(#[trigger] self.less(a, a)),
            forall|a: int, b: int, c: int|
                #[trigger] self.less(a, b) && #[trigger] self.less(b, c) ==> self.less(a, c),
            forall|a: int, b: int, c: int|
                #![trigger self.less(a, b), self.less(c, b)]
                self.less(a, b) && !self.less(c, b) ==> self.less(a, c),
    ;

    fn count(&self) -> (n: usize)
        ensures
            n == self.size(),
    ;

    fn is_less(&self, a: usize, b: usize) -> (r: bool)
        requires
            a < self.size(),
            b < self.size(),
        ensures
            r == self.less(a as int, b as int),
    ;
}

/// Entry `a` comes before entry `b`: by its key, or first of two equal keys.
pub open spec fn comes_before<K: Keys>(keys: &K, a: int, b: int) -> bool {
    keys.less(a, b) || (!keys.less(b, a) && a < b)
}

/// `order` lists the positions of all keys, the smallest key first, equal keys
/// as they stood.
pub open spec fn is_stable_order<K: Keys>(keys: &K, order: Seq<usize>) -> bool {
    &&& order.len() == keys.size()
    &&& forall|k: int| 0 <= k < order.len() ==> #[trigger] order[k] < keys.size()
    &&& forall|i: int| 0 <= i < keys.size() ==> #[trigger] order.contains(i as usize)
    &&& forall|k: int, l: int|
        0 <= k < l < order.len() ==> comes_before(
            keys,
            #[trigger] order[k] as int,
            #[trigger] order[l] as int,
        )
}

/// [`is_stable_order`] for the first `n` keys.
spec fn is_partial_order<K: Keys>(keys: &K, order: Seq<usize>, n: int) -> bool {
    &&& order.len() == n
    &&& forall|k: int| 0 <= k < order.len() ==> #[trigger] order[k] < n
    &&& forall|i: int| 0 <= i < n ==> #[trigger] order.contains(i as usize)
    &&& forall|k: int, l: int|
        0 <= k < l < order.len() ==> comes_before(
            keys,
            #[trigger] order[k] as int,
            #[trigger] order[l] as int,
        )
}

/// The positions of the keys in sorted order.
pub fn stable_order<K: Keys>(keys: &K) -> (order: Vec<usize>)
    ensures
        is_stable_order(keys, order@),
{
    let n: usize = keys.count();
    let mut order: Vec<usize> = Vec::new();
    let mut i: usize = 0;
    while i < n
        invariant
            i <= n,
            n == keys.size(),
            is_partial_order(keys, order@, i as int),
        decreases n - i,
    {
        let mut at: usize = order.len();
        while at > 0 && keys.is_less(i, order[at - 1])
            invariant
                at <= order@.len(),
                i < n,
                n == keys.size(),
                order@.len() == i,
                forall|k: int| 0 <= k < order@.len() ==> #[trigger] order@[k] < i,
                forall|k: int| at <= k < order@.len() ==> keys.less(i as int, #[trigger] order@[k] as int),
            decreases at,
        {
            at = at - 1;
        }
        let ghost before = order@;
        order.insert(at, i);
        proof {
            keys.less_is_strict_order();
            assert(order@ == before.insert(at as int, i));
            assert forall|k: int, l: int| 0 <= k < l < order@.len() implies comes_before(
                keys,
                #[trigger] order@[k] as int,
                #[trigger] order@[l] as int,
            ) by {
                if l < at {
                    assert(comes_before(keys, before[k] as int, before[l] as int));
                } else if k > at {
                    assert(comes_before(keys, before[k - 1] as int, before[l - 1] as int));
                } else if k < at && l > at {
                    assert(comes_before(keys, before[k] as int, before[l - 1] as int));
                } else if k == at {
                    assert(keys.less(i as int, before[l - 1] as int));
                } else {
                    // l == at: nothing before it is larger.
                    let last = before[at - 1];
                    assert(!keys.less(i as int, last as int));
                    if k < at - 1 {
                        assert(comes_before(keys, before[k] as int, last as int));
                    }
                    assert(before[k] < i);
                    assert(!keys.less(i as int, before[k] as int));
                }
            }
            assert forall|j: int| 0 <= j < i + 1 implies #[trigger] order@.contains(j as usize) by {
                if j == i {
                    assert(order@[at as int] == i);
                } else {
                    assert(before.contains(j as usize));
                    let k = choose|k: int| 0 <= k < before.len() && before[k] == j as usize;
                    if k < at {
                        assert(order@[k] == j as usize);
                    } else {
                        assert(order@[k + 1] == j as usize);
                    }
                }
            }
        }
        i = i + 1;
    }
    order
}

/// Numbers as keys.
#[derive(Debug)]
pub struct NumberKeys {
    pub keys: Vec<u64>,
}

impl Keys for NumberKeys {
    open spec fn size(&self) -> nat {
        self.keys@.len()
    }

    open spec fn less(&self, a: int, b: int) -> bool {
        self.keys@[a] < self.keys@[b]
    }

    proof fn less_is_strict_order(&self) {
    }

    fn count(&self) -> usize {
        self.keys.len()
    }

    fn is_less(&self, a: usize, b: usize) -> bool {
        self.keys[a] < self.keys[b]
    }
}

/// `a` comes before `b` in a dictionary.
pub open spec fn lex_less(a: Seq<u8>, b: Seq<u8>) -> bool
    decreases b.len(),
{
    if b.len() == 0 {
        false
    } else if a.len() == 0 {
        true
    } else if a[0] != b[0] {
        a[0] < b[0]
    } else {
        lex_less(a.drop_first(), b.drop_first())
    }
}

pub proof fn lemma_lex_irreflexive(a: Seq<u8>)
    ensures
        !lex_less(a, a),
    decreases a.len(),
{
    if a.len() > 0 {
        lemma_lex_irreflexive(a.drop_first());
    }
}

pub proof fn lemma_lex_transitive(a: Seq<u8>, b: Seq<u8>, c: Seq<u8>)
    requires
        lex_less(a, b),
        lex_less(b, c),
    ensures
        lex_less(a, c),
    decreases c.len(),
{
    if a.len() > 0 && a[0] == b[0] && b[0] == c[0] {
        lemma_lex_transitive(a.drop_first(), b.drop_first(), c.drop_first());
    }
}

/// Two byte strings neither of which comes first are the same.
pub proof fn lemma_lex_total(a: Seq<u8>, b: Seq<u8>)
    requires
        !lex_less(a, b),
        !lex_less(b, a),
    ensures
        a == b,
    decreases a.len(),
{
    if a.len() > 0 && b.len() > 0 {
        lemma_lex_total(a.drop_first(), b.drop_first());
        assert(a =~= seq![a[0]] + a.drop_first());
        assert(b =~= seq![b[0]] + b.drop_first());
    }
    assert(a =~= b);
}

/// Whether `a` comes before `b` in a dictionary.
pub fn bytes_less(a: &[u8], b: &[u8]) -> (r: bool)
    ensures
        r == lex_less(a@, b@),
{
    let mut i: usize = 0;
    assert(a@.skip(0) =~= a@);
    assert(b@.skip(0) =~= b@);
    loop
        invariant
            i <= a@.len(),
            i <= b@.len(),
            lex_less(a@, b@) == lex_less(a@.skip(i as int), b@.skip(i as int)),
        decreases a.len() - i,
    {
        if i == b.len() {
            return false;
        }
        if i == a.len() {
            return true;
        }
        if a[i] != b[i] {
            return a[i] < b[i];
        }
        assert(a@.skip(i as int).drop_first() =~= a@.skip(i + 1));
        assert(b@.skip(i as int).drop_first() =~= b@.skip(i + 1));
        i = i + 1;
    }
}

/// Byte strings as keys, in lexicographic order.
#[derive(Debug)]
pub struct ByteKeys {
    pub keys: Vec<Vec<u8>>,
}

impl Keys for ByteKeys {
    open spec fn size(&self) -> nat {
        self.keys@.len()
    }

    open spec fn less(&self, a: int, b: int) -> bool {
        lex_less(self.keys@[a]@, self.keys@[b]@)
    }

    proof fn less_is_strict_order(&self) {
        assert forall|a: int| !(#[trigger] self.less(a, a)) by {
            lemma_lex_irreflexive(self.keys@[a]@);
        }
        assert forall|a: int, b: int, c: int| #[trigger]
            self.less(a, b) && #[trigger] self.less(b, c) implies self.less(a, c) by {
            lemma_lex_transitive(self.keys@[a]@, self.keys@[b]@, self.keys@[c]@);
        }
        assert forall|a: int, b: int, c: int|
            #![trigger self.less(a, b), self.less(c, b)]
            self.less(a, b) && !self.less(c, b) implies self.less(a, c) by {
            let x = self.keys@[a]@;
            let y = self.keys@[b]@;
            let z = self.keys@[c]@;
            if !lex_less(x, z) {
                if lex_less(z, x) {
                    lemma_lex_transitive(z, x, y);
                } else {
                    lemma_lex_total(x, z);
                }
            }
        }
    }

    fn count(&self) -> usize {
        self.keys.len()
    }

    fn is_less(&self, a: usize, b: usize) -> bool {
        bytes_less(self.keys[a].as_slice(), self.keys[b].as_slice())
    }
}

/// There is only one stable order.
pub proof fn law_stable_order_is_unique<K: Keys>(keys: &K, p: Seq<usize>, q: Seq<usize>)
    requires
        is_stable_order(keys, p),
        is_stable_order(keys, q),
    ensures
        p == q,
{
    keys.less_is_strict_order();
    assert forall|k: int| 0 <= k < p.len() implies p[k] == q[k] by {
        lemma_same_entry(keys, p, q, k);
    }
    assert(p =~= q);
}

proof fn lemma_same_entry<K: Keys>(keys: &K, p: Seq<usize>, q: Seq<usize>, k: int)
    requires
        is_stable_order(keys, p),
        is_stable_order(keys, q),
        0 <= k < p.len(),
    ensures
        p[k] == q[k],
    decreases k,
{
    keys.less_is_strict_order();
    assert forall|j: int| 0 <= j < k implies p[j] == q[j] by {
        lemma_same_entry(keys, p, q, j);
    }
    if p[k] != q[k] {
        assert(q.contains(p[k] as int as usize));
        let a = choose|a: int| 0 <= a < q.len() && q[a] == p[k];
        assert(p.contains(q[k] as int as usize));
        let b = choose|b: int| 0 <= b < p.len() && p[b] == q[k];
        if a < k {
            assert(p[a] == q[a]);
            assert(comes_before(keys, p[a] as int, p[k] as int));
        }
        if b < k {
            assert(p[b] == q[b]);
            assert(comes_before(keys, q[b] as int, q[k] as int));
        }
        assert(comes_before(keys, q[k] as int, q[a] as int));
        assert(comes_before(keys, p[k] as int, p[b] as int));
    }
}

/// Byte strings are ordered by their first difference, and a beginning comes
/// before what goes on from it.
pub proof fn law_first_difference_decides(a: Seq<u8>, b: Seq<u8>, i: int)
    requires
        0 <= i <= a.len(),
        i <= b.len(),
        a.take(i) == b.take(i),
    ensures
        i < a.len() && i < b.len() && a[i] < b[i] ==> lex_less(a, b) && !lex_less(b, a),
        i == a.len() && i < b.len() ==> lex_less(a, b) && !lex_less(b, a),
        i == a.len() && i == b.len() ==> !lex_less(a, b),
    decreases i,
{
    if i > 0 {
        assert(a[0] == a.take(i)[0] && b[0] == b.take(i)[0]);
        let x = a.drop_first();
        let y = b.drop_first();
        assert(x.take(i - 1) =~= y.take(i - 1)) by {
            assert forall|k: int| 0 <= k < i - 1 implies x[k] == y[k] by {
                assert(a.take(i)[k + 1] == a[k + 1] && b.take(i)[k + 1] == b[k + 1]);
            }
        }
        law_first_difference_decides(x, y, i - 1);
    }
}

} // verus!
