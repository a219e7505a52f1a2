//! Orders on keys and a stable sort of indices by key.

use vstd::prelude::*;
use crate::text::chars_of;

verus! {

/// Lexicographic order of character sequences by code point: the order of
/// `str`'s `Ord` (UTF-8 byte order and code point order agree).
pub open spec fn text_lt(a: Seq<char>, b: Seq<char>) -> bool
    decreases a.len(),
{
    if a.len() == 0 {
        b.len() > 0
    } else if b.len() == 0 {
        false
    } else if a[0] != b[0] {
        a[0] < b[0]
    } else {
        text_lt(a.drop_first(), b.drop_first())
    }
}

proof fn lemma_text_lt_irreflexive(a: Seq<char>)
    ensures
        !text_lt(a, a),
    decreases a.len(),
{
    if a.len() > 0 {
        lemma_text_lt_irreflexive(a.drop_first());
    }
}

proof fn lemma_text_lt_connected(a: Seq<char>, b: Seq<char>)
    ensures
        text_lt(a, b) || text_lt(b, a) || a == b,
    decreases a.len(),
{
    if a.len() > 0 && b.len() > 0 && a[0] == b[0] {
        lemma_text_lt_connected(a.drop_first(), b.drop_first());
        if a.drop_first() == b.drop_first() {
            assert(a == seq![a[0]] + a.drop_first());
            assert(b == seq![b[0]] + b.drop_first());
        }
    } else if a.len() == 0 && b.len() == 0 {
        assert(a == b);
    }
}

proof fn lemma_text_lt_asymmetric(a: Seq<char>, b: Seq<char>)
    ensures
        text_lt(a, b) ==> !text_lt(b, a),
    decreases a.len(),
{
    if a.len() > 0 && b.len() > 0 && a[0] == b[0] {
        lemma_text_lt_asymmetric(a.drop_first(), b.drop_first());
    }
}

proof fn lemma_text_lt_transitive(a: Seq<char>, b: Seq<char>, c: Seq<char>)
    ensures
        text_lt(a, b) && text_lt(b, c) ==> text_lt(a, c),
    decreases a.len(),
{
    if a.len() > 0 && b.len() > 0 && c.len() > 0 {
        lemma_text_lt_transitive(a.drop_first(), b.drop_first(), c.drop_first());
    }
}

/// `text_lt` is a strict total order.
pub proof fn lemma_text_lt_order(a: Seq<char>, b: Seq<char>, c: Seq<char>)
    ensures
        !text_lt(a, a),
        text_lt(a, b) ==> !text_lt(b, a) && a != b,
        text_lt(a, b) || text_lt(b, a) || a == b,
        text_lt(a, b) && text_lt(b, c) ==> text_lt(a, c),
{
    lemma_text_lt_irreflexive(a);
    lemma_text_lt_connected(a, b);
    lemma_text_lt_asymmetric(a, b);
    lemma_text_lt_transitive(a, b, c);
}

/// Is `a` strictly before `b` in lexicographic code point order?
pub fn text_less(a: &Vec<char>, b: &Vec<char>) -> (r: bool)
    ensures
        r == text_lt(a@, b@),
{
    let mut i: usize = 0;
    assert(a@.skip(0) == a@ && b@.skip(0) == b@);
    while i < a.len() && i < b.len() && a[i] == b[i]
        invariant
            i <= a.len(),
            i <= b.len(),
            a@.take(i as int) == b@.take(i as int),
            text_lt(a@, b@) == text_lt(a@.skip(i as int), b@.skip(i as int)),
        decreases a.len() - i,
    {
        assert(a@.skip(i as int).drop_first() == a@.skip(i + 1));
        assert(b@.skip(i as int).drop_first() == b@.skip(i + 1));
        assert(a@.take(i + 1) == a@.take(i as int).push(a[i as int]));
        assert(b@.take(i + 1) == b@.take(i as int).push(b[i as int]));
        i += 1;
    }
    if i == a.len() {
        i < b.len()
    } else if i == b.len() {
        false
    } else {
        a[i] < b[i]
    }
}

/// A key by which items are ordered: a strict order `precedes` whose
/// incomparable elements are exactly the `ties`.
pub trait SortKey: Sized {
    spec fn precedes(self, other: Self) -> bool;

    spec fn ties(self, other: Self) -> bool;

    proof fn lemma_order(a: Self, b: Self, c: Self)
        ensures
            !a.precedes(a),
            a.ties(a),
            a.ties(b) ==> b.ties(a),
            a.precedes(b) ==> !b.precedes(a) && !a.ties(b),
            a.precedes(b) || b.precedes(a) || a.ties(b),
            a.precedes(b) && b.precedes(c) ==> a.precedes(c),
            a.ties(b) && b.ties(c) ==> a.ties(c),
            a.ties(b) && b.precedes(c) ==> a.precedes(c),
            a.precedes(b) && b.ties(c) ==> a.precedes(c),
    ;

    fn key_precedes(&self, other: &Self) -> (r: bool)
        ensures
            r == self.precedes(*other),
    ;
}

impl SortKey for String {
    open spec fn precedes(self, other: Self) -> bool {
        text_lt(self@, other@)
    }

    open spec fn ties(self, other: Self) -> bool {
        self@ == other@
    }

    proof fn lemma_order(a: Self, b: Self, c: Self) {
        lemma_text_lt_order(a@, b@, c@);
        lemma_text_lt_order(b@, c@, a@);
        lemma_text_lt_order(c@, a@, b@);
        lemma_text_lt_order(b@, a@, c@);
    }

    fn key_precedes(&self, other: &Self) -> (r: bool) {
        text_less(&chars_of(self.as_str()), &chars_of(other.as_str()))
    }
}

/// A point in time: whole seconds since the Unix epoch and the nanoseconds
/// within that second (at or above one billion during a leap second).
#[derive(Clone, Copy, Debug, PartialEq, Eq, Structural)]
pub struct Instant {
    pub secs: i64,
    pub nanos: u32,
}

/// Chronological order of instants.
pub open spec fn instant_lt(a: Instant, b: Instant) -> bool {
    a.secs < b.secs || (a.secs == b.secs && a.nanos < b.nanos)
}

impl SortKey for Instant {
    open spec fn precedes(self, other: Self) -> bool {
        instant_lt(self, other)
    }

    open spec fn ties(self, other: Self) -> bool {
        self == other
    }

    proof fn lemma_order(a: Self, b: Self, c: Self) {
    }

    fn key_precedes(&self, other: &Self) -> (r: bool) {
        self.secs < other.secs || (self.secs == other.secs && self.nanos < other.nanos)
    }
}

/// Does item `i` come before item `j` when items are ordered by their keys
/// (ascending, or descending when `descending`), ties kept in index order?
pub open spec fn comes_before<K: SortKey>(keys: Seq<K>, descending: bool, i: int, j: int) -> bool {
    if descending {
        keys[j].precedes(keys[i]) || (keys[i].ties(keys[j]) && i < j)
    } else {
        keys[i].precedes(keys[j]) || (keys[i].ties(keys[j]) && i < j)
    }
}

/// `p` lists every index below `n` exactly once.
pub open spec fn is_index_permutation(p: Seq<usize>, n: nat) -> bool {
    &&& p.len() == n
    &&& forall|k: int| 0 <= k < p.len() ==> #[trigger] p[k] < n
    &&& forall|a: int, b: int| 0 <= a < b < p.len() ==> p[a] != p[b]
    &&& forall|j: int| 0 <= j < n ==> #[trigger] p.contains(j as usize)
}

/// `p` is the stable order of the items by `keys`.
pub open spec fn is_stable_order<K: SortKey>(keys: Seq<K>, descending: bool, p: Seq<usize>) -> bool {
    &&& is_index_permutation(p, keys.len())
    &&& forall|a: int, b: int|
        0 <= a < b < p.len() ==> #[trigger] comes_before(keys, descending, p[a] as int, p[b] as int)
}

/// `output` lists the items of `input` at the positions `p`, in order.
pub open spec fn arranged_by<T>(input: Seq<T>, p: Seq<usize>, output: Seq<T>) -> bool {
    &&& output.len() == p.len()
    &&& forall|k: int| 0 <= k < output.len() ==> #[trigger] output[k] == input[p[k] as int]
}

/// `output` is `input` sorted stably by `keys` (the keys of `input`'s items).
pub open spec fn is_stable_sort<T, K: SortKey>(
    input: Seq<T>,
    keys: Seq<K>,
    descending: bool,
    output: Seq<T>,
) -> bool {
    exists|p: Seq<usize>| #[trigger] is_stable_order(keys, descending, p) && arranged_by(input, p, output)
}

pub(crate) proof fn lemma_comes_before<K: SortKey>(keys: Seq<K>, descending: bool, i: int, j: int, k: int)
    requires
        0 <= i < keys.len(),
        0 <= j < keys.len(),
        0 <= k < keys.len(),
    ensures
        i != j ==> comes_before(keys, descending, i, j) || comes_before(keys, descending, j, i),
        comes_before(keys, descending, i, j) ==> !comes_before(keys, descending, j, i),
        comes_before(keys, descending, i, j) && comes_before(keys, descending, j, k)
            ==> comes_before(keys, descending, i, k),
{
    K::lemma_order(keys[i], keys[j], keys[k]);
    K::lemma_order(keys[j], keys[i], keys[k]);
    K::lemma_order(keys[k], keys[j], keys[i]);
    K::lemma_order(keys[i], keys[k], keys[j]);
    K::lemma_order(keys[j], keys[k], keys[i]);
    K::lemma_order(keys[k], keys[i], keys[j]);
}

/// Does item `i` come before item `j`?
fn goes_before<K: SortKey>(keys: &Vec<K>, descending: bool, i: usize, j: usize) -> (r: bool)
    requires
        i < keys.len(),
        j < keys.len(),
    ensures
        r == comes_before(keys@, descending, i as int, j as int),
{
    proof {
        K::lemma_order(keys@[i as int], keys@[j as int], keys@[j as int]);
        K::lemma_order(keys@[j as int], keys@[i as int], keys@[i as int]);
    }
    let (first, second) = if descending { (j, i) } else { (i, j) };
    if keys[first].key_precedes(&keys[second]) {
        true
    } else if keys[second].key_precedes(&keys[first]) {
        false
    } else {
        i < j
    }
}

/// The stable order of items by their keys: the returned indices list the
/// items ascending (or descending) by key, items with equal keys in their
/// order of index.
pub fn stable_order<K: SortKey>(keys: &Vec<K>, descending: bool) -> (p: Vec<usize>)
    ensures
        is_stable_order(keys@, descending, p@),
{
    let mut p: Vec<usize> = Vec::new();
    let n: usize = keys.len();
    let mut i: usize = 0;
    while i < n
        invariant
            n == keys.len(),
            i <= n,
            p@.len() == i,
            forall|k: int| 0 <= k < p@.len() ==> #[trigger] p@[k] < i,
            forall|a: int, b: int| 0 <= a < b < p@.len() ==> p@[a] != p@[b],
            forall|j: int| 0 <= j < i ==> #[trigger] p@.contains(j as usize),
            forall|a: int, b: int|
                0 <= a < b < p@.len() ==> #[trigger] comes_before(keys@, descending, p@[a] as int, p@[b] as int),
        decreases n - i,
    {
        // position of the first listed item that the new item comes before
        let mut pos: usize = 0;
        while pos < p.len() && !goes_before(keys, descending, i, p[pos])
            invariant
                n == keys.len(),
                i < n,
                pos <= p@.len(),
                p@.len() == i,
                forall|k: int| 0 <= k < p@.len() ==> #[trigger] p@[k] < i,
                forall|k: int| 0 <= k < pos ==> #[trigger] comes_before(keys@, descending, p@[k] as int, i as int),
            decreases p@.len() - pos,
        {
            proof {
                lemma_comes_before(keys@, descending, p@[pos as int] as int, i as int, i as int);
            }
            pos += 1;
        }
        proof {
            if pos < p@.len() {
                assert(comes_before(keys@, descending, i as int, p@[pos as int] as int));
                assert forall|k: int| pos <= k < p@.len() implies #[trigger] comes_before(keys@, descending, i as int, p@[k] as int) by {
                    if k > pos {
                        assert(comes_before(keys@, descending, p@[pos as int] as int, p@[k] as int));
                        lemma_comes_before(keys@, descending, i as int, p@[pos as int] as int, p@[k] as int);
                    }
                }
            }
        }
        let ghost old_p = p@;
        p.insert(pos, i);
        proof {
            assert(p@ == old_p.take(pos as int).push(i).add(old_p.skip(pos as int)));
            assert forall|a: int, b: int| 0 <= a < b < p@.len() implies #[trigger] comes_before(keys@, descending, p@[a] as int, p@[b] as int) by {
                if b < pos {
                    assert(p@[a] == old_p[a] && p@[b] == old_p[b]);
                } else if b == pos {
                    assert(p@[a] == old_p[a]);
                } else if a == pos {
                    assert(p@[b] == old_p[b - 1]);
                } else if a < pos {
                    assert(p@[a] == old_p[a] && p@[b] == old_p[b - 1]);
                } else {
                    assert(p@[a] == old_p[a - 1] && p@[b] == old_p[b - 1]);
                }
            }
            assert forall|a: int, b: int| 0 <= a < b < p@.len() implies p@[a] != p@[b] by {
                if b < pos {
                    assert(p@[a] == old_p[a] && p@[b] == old_p[b]);
                } else if b == pos {
                    assert(p@[a] == old_p[a]);
                } else if a == pos {
                    assert(p@[b] == old_p[b - 1]);
                } else if a < pos {
                    assert(p@[a] == old_p[a] && p@[b] == old_p[b - 1]);
                } else {
                    assert(p@[a] == old_p[a - 1] && p@[b] == old_p[b - 1]);
                }
            }
            assert forall|j: int| 0 <= j < i + 1 implies #[trigger] p@.contains(j as usize) by {
                if j == i {
                    assert(p@[pos as int] == i);
                } else {
                    assert(old_p.contains(j as usize));
                    let k = choose|k: int| 0 <= k < old_p.len() && old_p[k] == j as usize;
                    if k < pos {
                        assert(p@[k] == j as usize);
                    } else {
                        assert(p@[k + 1] == j as usize);
                    }
                }
            }
            assert forall|k: int| 0 <= k < p@.len() implies #[trigger] p@[k] < i + 1 by {
                if k < pos {
                    assert(p@[k] == old_p[k]);
                } else if k > pos {
                    assert(p@[k] == old_p[k - 1]);
                }
            }
        }
        i += 1;
    }
    p
}

} // verus!
