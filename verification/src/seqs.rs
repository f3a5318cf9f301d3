use vstd::prelude::*;

verus! {

/// What lies in a sequence with one more entry.
pub proof fn lemma_push_contains<T>(s: Seq<T>, e: T, q: T)
    ensures
        s.push(e).contains(q) <==> s.contains(q) || q == e,
{
    let longer = s.push(e);
    if longer.contains(q) {
        let i = choose|i: int| 0 <= i < longer.len() && longer[i] == q;
        if i < s.len() {
            assert(s[i] == q);
        }
    }
    if s.contains(q) {
        let i = choose|i: int| 0 <= i < s.len() && s[i] == q;
        assert(longer[i] == q);
    }
    if q == e {
        assert(longer[s.len() as int] == q);
    }
}

/// What lies in two sequences put together.
pub proof fn lemma_add_contains<T>(a: Seq<T>, b: Seq<T>, q: T)
    ensures
        (a + b).contains(q) <==> a.contains(q) || b.contains(q),
{
    let both = a + b;
    if both.contains(q) {
        let i = choose|i: int| 0 <= i < both.len() && both[i] == q;
        if i < a.len() {
            assert(a[i] == q);
        } else {
            assert(b[i - a.len()] == q);
        }
    }
    if a.contains(q) {
        let i = choose|i: int| 0 <= i < a.len() && a[i] == q;
        assert(both[i] == q);
    }
    if b.contains(q) {
        let i = choose|i: int| 0 <= i < b.len() && b[i] == q;
        assert(both[a.len() + i] == q);
    }
}

/// What is left of a sequence without duplicates once its entry at `k` was
/// taken out.
pub proof fn lemma_remove_contains<T>(s: Seq<T>, k: int, q: T)
    requires
        s.no_duplicates(),
        0 <= k < s.len(),
    ensures
        s.remove(k).contains(q) <==> s.contains(q) && q != s[k],
        s.remove(k).no_duplicates(),
{
    let shorter = s.remove(k);
    if shorter.contains(q) {
        let j = choose|j: int| 0 <= j < shorter.len() && shorter[j] == q;
        let j0 = if j < k { j } else { j + 1 };
        assert(s[j0] == q);
    }
    if s.contains(q) && q != s[k] {
        let j0 = choose|j0: int| 0 <= j0 < s.len() && s[j0] == q;
        let j = if j0 < k { j0 } else { j0 - 1 };
        assert(shorter[j] == q);
    }
    assert forall|a: int, b: int|
        0 <= a < shorter.len() && 0 <= b < shorter.len() && a != b implies shorter[a]
        != shorter[b] by {
        let a0 = if a < k { a } else { a + 1 };
        let b0 = if b < k { b } else { b + 1 };
        assert(s[a0] != s[b0]);
    }
}

} // verus!
