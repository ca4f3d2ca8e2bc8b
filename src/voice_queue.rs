//! The replacement order of the polyphonic voices: a sequence of voice
//! indices, oldest first, from which released voices are struck out.
use vstd::prelude::*;

verus! {

/// `q` without the entries that `r` holds, the others in their order.
pub open spec fn strip(q: Seq<usize>, r: Set<usize>) -> Seq<usize>
    decreases q.len(),
{
    if q.len() == 0 {
        q
    } else {
        let rest = strip(q.drop_last(), r);
        if r.contains(q.last()) {
            rest
        } else {
            rest.push(q.last())
        }
    }
}

pub proof fn lemma_strip_nothing(q: Seq<usize>)
    ensures
        strip(q, Set::empty()) == q,
    decreases q.len(),
{
    if q.len() > 0 {
        lemma_strip_nothing(q.drop_last());
        assert(q.drop_last().push(q.last()) =~= q);
    }
}

/// Striking out keeps exactly the entries outside `r`, each once.
pub proof fn lemma_strip_contents(q: Seq<usize>, r: Set<usize>)
    requires
        q.no_duplicates(),
    ensures
        strip(q, r).no_duplicates(),
        forall|x: usize| strip(q, r).contains(x) <==> (q.contains(x) && !r.contains(x)),
        strip(q, r).len() <= q.len(),
    decreases q.len(),
{
    if q.len() > 0 {
        let d = q.drop_last();
        assert(d.no_duplicates());
        lemma_strip_contents(d, r);
        let rest = strip(d, r);
        assert forall|x: usize| q.contains(x) <==> (d.contains(x) || x == q.last()) by {
            if q.contains(x) {
                let k = choose|k: int| 0 <= k < q.len() && q[k] == x;
                if k < q.len() - 1 {
                    assert(d[k] == x);
                }
            }
            if d.contains(x) {
                let k = choose|k: int| 0 <= k < d.len() && d[k] == x;
                assert(q[k] == x);
            }
            if x == q.last() {
                assert(q[q.len() - 1] == x);
            }
        }
        assert(!d.contains(q.last()));
        if !r.contains(q.last()) {
            let s = rest.push(q.last());
            assert forall|x: usize| s.contains(x) <==> (rest.contains(x) || x == q.last()) by {
                if s.contains(x) {
                    let k = choose|k: int| 0 <= k < s.len() && s[k] == x;
                    if k < rest.len() {
                        assert(rest[k] == x);
                    }
                }
                if rest.contains(x) {
                    let k = choose|k: int| 0 <= k < rest.len() && rest[k] == x;
                    assert(s[k] == x);
                }
                if x == q.last() {
                    assert(s[s.len() - 1] == x);
                }
            }
            assert forall|i: int, j: int| 0 <= i < s.len() && 0 <= j < s.len() && i != j implies s[i]
                != s[j] by {
                if i < rest.len() && j < rest.len() {
                } else if i < rest.len() {
                    assert(rest.contains(s[i]));
                } else {
                    assert(rest.contains(s[j]));
                }
            }
        }
    }
}

/// Adding to `r` an index that `q` does not hold strikes out nothing more.
pub proof fn lemma_strip_absent(q: Seq<usize>, r: Set<usize>, v: usize)
    requires
        !q.contains(v),
    ensures
        strip(q, r.insert(v)) == strip(q, r),
    decreases q.len(),
{
    if q.len() > 0 {
        let d = q.drop_last();
        assert(!d.contains(v)) by {
            if d.contains(v) {
                let k = choose|k: int| 0 <= k < d.len() && d[k] == v;
                assert(q[k] == v);
            }
        }
        assert(q[q.len() - 1] != v);
        lemma_strip_absent(d, r, v);
    }
}

/// Removing one entry of the stripped sequence strikes that entry out too.
pub proof fn lemma_strip_remove(q: Seq<usize>, r: Set<usize>, p: int)
    requires
        q.no_duplicates(),
        0 <= p < strip(q, r).len(),
    ensures
        strip(q, r).remove(p) == strip(q, r.insert(strip(q, r)[p])),
    decreases q.len(),
{
    let d = q.drop_last();
    let last = q.last();
    let v = strip(q, r)[p];
    assert(d.no_duplicates());
    let t = strip(d, r);
    lemma_strip_contents(d, r);
    assert(!d.contains(last));
    if r.contains(last) {
        lemma_strip_remove(d, r, p);
    } else if p == t.len() {
        assert(t.push(last).remove(p) =~= t);
        lemma_strip_absent(d, r, v);
    } else {
        lemma_strip_remove(d, r, p);
        assert(t.contains(v)) by {
            assert(t[p] == v);
        }
        assert(v != last);
        assert(t.push(last).remove(p) =~= t.remove(p).push(last));
    }
}

} // verus!
