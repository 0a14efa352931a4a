//! Byte strings: comparing, copying and sorting them.

use vstd::prelude::*;

verus! {

/// The contents of a list of byte strings.
pub open spec fn contents(list: Seq<Vec<u8>>) -> Seq<Seq<u8>> {
    list.map_values(|v: Vec<u8>| v@)
}

/// A copy of a byte string.
pub fn copy_bytes(v: &Vec<u8>) -> (r: Vec<u8>)
    ensures
        r@ == v@,
{
    let mut out: Vec<u8> = Vec::new();
    let mut i: usize = 0;
    while i < v.len()
        invariant
            i <= v.len(),
            out@ == v@.take(i as int),
        decreases v.len() - i,
    {
        assert(v@.take(i as int + 1) =~= v@.take(i as int).push(v@[i as int]));
        out.push(v[i]);
        i = i + 1;
    }
    assert(v@.take(v.len() as int) =~= v@);
    out
}

/// Whether two byte strings are the same.
pub fn same_bytes(a: &Vec<u8>, b: &Vec<u8>) -> (r: bool)
    ensures
        r == (a@ == b@),
{
    if a.len() != b.len() {
        return false;
    }
    let mut i: usize = 0;
    while i < a.len()
        invariant
            i <= a.len(),
            a.len() == b.len(),
            forall|j: int| 0 <= j < i ==> a@[j] == b@[j],
        decreases a.len() - i,
    {
        if a[i] != b[i] {
            return false;
        }
        i = i + 1;
    }
    assert(a@ =~= b@);
    true
}

/// Lexicographic order of byte strings: `a` comes before `b`.
pub open spec fn bytes_lt(a: Seq<u8>, b: Seq<u8>) -> bool
    decreases a.len(),
{
    if b.len() == 0 {
        false
    } else if a.len() == 0 {
        true
    } else if a[0] != b[0] {
        a[0] < b[0]
    } else {
        bytes_lt(a.drop_first(), b.drop_first())
    }
}

/// Whether `a` comes before `b` in lexicographic order.
pub fn is_before(a: &Vec<u8>, b: &Vec<u8>) -> (r: bool)
    ensures
        r == bytes_lt(a@, b@),
{
    let mut i: usize = 0;
    proof {
        assert(a@.skip(0) =~= a@);
        assert(b@.skip(0) =~= b@);
    }
    while i < a.len() && i < b.len() && a[i] == b[i]
        invariant
            i <= a.len(),
            i <= b.len(),
            bytes_lt(a@, b@) == bytes_lt(a@.skip(i as int), b@.skip(i as int)),
        decreases a.len() - i,
    {
        proof {
            assert(a@.skip(i as int).drop_first() =~= a@.skip(i as int + 1));
            assert(b@.skip(i as int).drop_first() =~= b@.skip(i as int + 1));
        }
        i = i + 1;
    }
    if i == b.len() {
        false
    } else if i == a.len() {
        true
    } else {
        a[i] < b[i]
    }
}

/// The order is strict and total: of two byte strings exactly one comes first,
/// unless they are the same.
pub proof fn bytes_lt_trichotomy(a: Seq<u8>, b: Seq<u8>)
    ensures
        bytes_lt(a, b) || bytes_lt(b, a) || a == b,
        !(bytes_lt(a, b) && bytes_lt(b, a)),
        !bytes_lt(a, a),
    decreases a.len(),
{
    if a.len() > 0 {
        bytes_lt_trichotomy(a.drop_first(), a.drop_first());
    }
    if a.len() > 0 && b.len() > 0 && a[0] == b[0] {
        bytes_lt_trichotomy(a.drop_first(), b.drop_first());
        if a.drop_first() == b.drop_first() {
            assert(a =~= seq![a[0]] + a.drop_first());
            assert(b =~= seq![b[0]] + b.drop_first());
        }
    } else if a.len() == 0 && b.len() == 0 {
        assert(a =~= b);
    }
}

/// The order is transitive.
pub proof fn bytes_lt_transitive(a: Seq<u8>, b: Seq<u8>, c: Seq<u8>)
    requires
        bytes_lt(a, b),
        bytes_lt(b, c),
    ensures
        bytes_lt(a, c),
    decreases a.len(),
{
    if a.len() > 0 && b.len() > 0 && c.len() > 0 && a[0] == b[0] && b[0] == c[0] {
        bytes_lt_transitive(a.drop_first(), b.drop_first(), c.drop_first());
    }
}

/// Whether each byte string of the list comes before the later ones.
pub open spec fn ascending(list: Seq<Seq<u8>>) -> bool {
    forall|i: int, j: int|
        0 <= i < j < list.len() ==> bytes_lt(#[trigger] list[i], #[trigger] list[j])
}

/// The ascending list `sorted` with `a` in its place; once only.
pub open spec fn insert_once(sorted: Seq<Seq<u8>>, a: Seq<u8>) -> Seq<Seq<u8>>
    decreases sorted.len(),
{
    if sorted.len() == 0 {
        seq![a]
    } else if sorted.last() == a {
        sorted
    } else if bytes_lt(a, sorted.last()) {
        insert_once(sorted.drop_last(), a).push(sorted.last())
    } else {
        sorted.push(a)
    }
}

/// The byte strings of `list` in ascending order, each once.
pub open spec fn sorted_once(list: Seq<Seq<u8>>) -> Seq<Seq<u8>>
    decreases list.len(),
{
    if list.len() == 0 {
        Seq::empty()
    } else {
        insert_once(sorted_once(list.drop_last()), list.last())
    }
}

/// Puts `a` in its place in an ascending list, once only.
pub fn insert_sorted(sorted: &mut Vec<Vec<u8>>, a: Vec<u8>)
    ensures
        contents(final(sorted)@) == insert_once(contents(old(sorted)@), a@),
{
    let mut p: usize = sorted.len();
    let ghost all = contents(sorted@);
    proof {
        assert(all.take(p as int) =~= all);
        assert(all.skip(p as int) =~= Seq::<Seq<u8>>::empty());
        assert(insert_once(all, a@) + Seq::<Seq<u8>>::empty() =~= insert_once(all, a@));
    }
    while p > 0 && is_before(&a, &sorted[p - 1])
        invariant
            p <= sorted.len(),
            all == contents(sorted@),
            insert_once(all, a@) == insert_once(all.take(p as int), a@) + all.skip(p as int),
        decreases p,
    {
        proof {
            let head = all.take(p as int);
            assert(head.last() == sorted@[p - 1]@);
            assert(head.drop_last() =~= all.take(p as int - 1));
            bytes_lt_trichotomy(a@, head.last());
            let shorter = insert_once(head.drop_last(), a@);
            assert(shorter.push(head.last()) + all.skip(p as int) =~= shorter + all.skip(
                p as int - 1,
            ));
        }
        p = p - 1;
    }
    let ghost head = all.take(p as int);
    if p > 0 && same_bytes(&sorted[p - 1], &a) {
        proof {
            assert(head.last() == sorted@[p - 1]@);
            assert(head + all.skip(p as int) =~= all);
        }
        return;
    }
    proof {
        assert(p > 0 ==> head.last() == sorted@[p - 1]@);
        assert(p == 0 ==> head.len() == 0);
        assert(seq![a@] =~= Seq::<Seq<u8>>::empty().push(a@));
        assert(p == 0 ==> head.push(a@) =~= seq![a@]);
        assert(insert_once(head, a@) == head.push(a@));
        assert(contents(sorted@.insert(p as int, a)) =~= head.push(a@) + all.skip(p as int));
    }
    sorted.insert(p, a);
}

proof fn insert_once_keeps(sorted: Seq<Seq<u8>>, a: Seq<u8>)
    requires
        ascending(sorted),
    ensures
        ascending(insert_once(sorted, a)),
        forall|x: Seq<u8>| #[trigger]
            insert_once(sorted, a).contains(x) <==> sorted.contains(x) || x == a,
    decreases sorted.len(),
{
    let out = insert_once(sorted, a);
    if sorted.len() == 0 {
        assert(out[0] == a);
        assert forall|x: Seq<u8>| #[trigger] out.contains(x) implies x == a by {}
    } else if sorted.last() == a {
        assert(sorted[sorted.len() - 1] == a);
    } else if bytes_lt(a, sorted.last()) {
        let shorter = sorted.drop_last();
        let inner = insert_once(shorter, a);
        insert_once_keeps(shorter, a);
        assert forall|k: int| 0 <= k < inner.len() implies bytes_lt(
            #[trigger] inner[k],
            sorted.last(),
        ) by {
            assert(inner.contains(inner[k]));
            if inner[k] != a {
                let m = choose|m: int| 0 <= m < shorter.len() && shorter[m] == inner[k];
                assert(bytes_lt(sorted[m], sorted[sorted.len() - 1]));
            }
        }
        assert forall|x: Seq<u8>| #[trigger] out.contains(x) <==> sorted.contains(x) || x == a by {
            if out.contains(x) {
                let k = choose|k: int| 0 <= k < out.len() && out[k] == x;
                if k < inner.len() {
                    assert(inner[k] == x);
                    assert(inner.contains(x));
                    if x != a {
                        let m = choose|m: int| 0 <= m < shorter.len() && shorter[m] == x;
                        assert(sorted[m] == x);
                    }
                } else {
                    assert(sorted[sorted.len() - 1] == x);
                }
            }
            if sorted.contains(x) {
                let m = choose|m: int| 0 <= m < sorted.len() && sorted[m] == x;
                if m < shorter.len() {
                    assert(shorter[m] == x);
                    assert(inner.contains(x));
                    let k = choose|k: int| 0 <= k < inner.len() && inner[k] == x;
                    assert(out[k] == x);
                } else {
                    assert(out[out.len() - 1] == x);
                }
            }
            if x == a {
                assert(inner.contains(a));
                let k = choose|k: int| 0 <= k < inner.len() && inner[k] == a;
                assert(out[k] == a);
            }
        }
    } else {
        bytes_lt_trichotomy(a, sorted.last());
        assert forall|i: int, j: int| 0 <= i < j < out.len() implies bytes_lt(
            #[trigger] out[i],
            #[trigger] out[j],
        ) by {
            if j == sorted.len() && i < sorted.len() - 1 {
                bytes_lt_transitive(sorted[i], sorted.last(), a);
            }
        }
        assert forall|x: Seq<u8>| #[trigger] out.contains(x) <==> sorted.contains(x) || x == a by {
            if sorted.contains(x) {
                let m = choose|m: int| 0 <= m < sorted.len() && sorted[m] == x;
                assert(out[m] == x);
            }
            if x == a {
                assert(out[sorted.len() as int] == a);
            }
        }
    }
}

/// The sorted list is ascending and holds exactly the byte strings of the list.
pub proof fn sorted_once_sorts(list: Seq<Seq<u8>>)
    ensures
        ascending(sorted_once(list)),
        forall|x: Seq<u8>| #[trigger] sorted_once(list).contains(x) <==> list.contains(x),
    decreases list.len(),
{
    if list.len() > 0 {
        let shorter = list.drop_last();
        sorted_once_sorts(shorter);
        insert_once_keeps(sorted_once(shorter), list.last());
        assert forall|x: Seq<u8>| #[trigger] sorted_once(list).contains(x) <==> list.contains(
            x,
        ) by {
            if list.contains(x) {
                let m = choose|m: int| 0 <= m < list.len() && list[m] == x;
                if m < shorter.len() {
                    assert(shorter[m] == x);
                }
            }
            if shorter.contains(x) {
                let m = choose|m: int| 0 <= m < shorter.len() && shorter[m] == x;
                assert(list[m] == x);
            }
            assert(list[list.len() - 1] == list.last());
        }
    }
}

/// Two ascending lists with the same byte strings are the same.
pub proof fn ascending_is_unique(a: Seq<Seq<u8>>, b: Seq<Seq<u8>>)
    requires
        ascending(a),
        ascending(b),
        forall|x: Seq<u8>| a.contains(x) <==> b.contains(x),
    ensures
        a == b,
    decreases a.len(),
{
    if a.len() == 0 {
        if b.len() > 0 {
            assert(b.contains(b[0]));
        }
        assert(a =~= b);
    } else {
        assert(a.contains(a.last())) by {
            assert(a[a.len() - 1] == a.last());
        }
        assert(b.contains(a.last()));
        assert(b.contains(b.last())) by {
            assert(b[b.len() - 1] == b.last());
        }
        assert(a.contains(b.last()));
        let i = choose|i: int| 0 <= i < a.len() && a[i] == b.last();
        let j = choose|j: int| 0 <= j < b.len() && b[j] == a.last();
        bytes_lt_trichotomy(a.last(), b.last());
        assert(a.last() == b.last()) by {
            if i < a.len() - 1 {
                assert(bytes_lt(a[i], a[a.len() - 1]));
            }
            if j < b.len() - 1 {
                assert(bytes_lt(b[j], b[b.len() - 1]));
            }
        }
        let c = a.drop_last();
        let d = b.drop_last();
        assert forall|x: Seq<u8>| c.contains(x) <==> d.contains(x) by {
            if c.contains(x) {
                let m = choose|m: int| 0 <= m < c.len() && c[m] == x;
                assert(a[m] == x);
                assert(a.contains(x));
                let k = choose|k: int| 0 <= k < b.len() && b[k] == x;
                assert(bytes_lt(a[m], a[a.len() - 1]));
                bytes_lt_trichotomy(x, x);
                assert(k < d.len());
                assert(d[k] == x);
            }
            if d.contains(x) {
                let m = choose|m: int| 0 <= m < d.len() && d[m] == x;
                assert(b[m] == x);
                assert(b.contains(x));
                let k = choose|k: int| 0 <= k < a.len() && a[k] == x;
                assert(bytes_lt(b[m], b[b.len() - 1]));
                bytes_lt_trichotomy(x, x);
                assert(k < c.len());
                assert(c[k] == x);
            }
        }
        ascending_is_unique(c, d);
        assert(a =~= c.push(a.last()));
        assert(b =~= d.push(b.last()));
    }
}

/// The sorted list depends only on which byte strings the list holds.
pub proof fn sorted_once_depends_on_the_set(a: Seq<Seq<u8>>, b: Seq<Seq<u8>>)
    requires
        forall|x: Seq<u8>| a.contains(x) <==> b.contains(x),
    ensures
        sorted_once(a) == sorted_once(b),
{
    sorted_once_sorts(a);
    sorted_once_sorts(b);
    assert forall|x: Seq<u8>| sorted_once(a).contains(x) <==> sorted_once(b).contains(x) by {
        assert(sorted_once(a).contains(x) <==> a.contains(x));
        assert(sorted_once(b).contains(x) <==> b.contains(x));
    }
    ascending_is_unique(sorted_once(a), sorted_once(b));
}

/// One byte string comes before another exactly if it is the beginning of it and
/// shorter, or has the smaller byte at the first place where they differ.
pub proof fn the_first_difference_decides(a: Seq<u8>, b: Seq<u8>)
    ensures
        bytes_lt(a, b) <==> exists|i: int| #[trigger] differs_first(a, b, i),
    decreases a.len(),
{
    if b.len() == 0 || a.len() == 0 || a[0] != b[0] {
        if bytes_lt(a, b) {
            assert(differs_first(a, b, 0));
        }
        if exists|i: int| #[trigger] differs_first(a, b, i) {
            let i = choose|i: int| #[trigger] differs_first(a, b, i);
            if i > 0 {
                assert(a[0] == b[0]);
            }
        }
    } else {
        let c = a.drop_first();
        let d = b.drop_first();
        the_first_difference_decides(c, d);
        if bytes_lt(a, b) {
            let i = choose|i: int| #[trigger] differs_first(c, d, i);
            assert forall|j: int| 0 <= j < i + 1 implies #[trigger] a[j] == b[j] by {
                if j > 0 {
                    assert(c[j - 1] == d[j - 1]);
                }
            }
            assert(differs_first(a, b, i + 1));
        }
        if exists|i: int| #[trigger] differs_first(a, b, i) {
            let i = choose|i: int| #[trigger] differs_first(a, b, i);
            assert(i > 0);
            assert forall|j: int| 0 <= j < i - 1 implies #[trigger] c[j] == d[j] by {
                assert(a[j + 1] == b[j + 1]);
            }
            assert(differs_first(c, d, i - 1));
        }
    }
}

/// Whether the byte strings are the same up to the place `i`, and there `a` has
/// ended, or has the smaller byte.
pub open spec fn differs_first(a: Seq<u8>, b: Seq<u8>, i: int) -> bool {
    &&& 0 <= i <= a.len()
    &&& i < b.len()
    &&& forall|j: int| 0 <= j < i ==> #[trigger] a[j] == b[j]
    &&& i < a.len() ==> a[i] < b[i]
}

} // verus!
