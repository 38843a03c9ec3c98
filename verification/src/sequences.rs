//! Sequence vocabulary shared by the contracts: appending what is missing, and
//! the lemmas about it.
use vstd::prelude::*;

verus! {

/// `base` followed by the members of `extra` that are not there yet, each once,
/// in the order in which they first occur in `extra`.
pub open spec fn append_missing<A>(base: Seq<A>, extra: Seq<A>) -> Seq<A>
    decreases extra.len(),
{
    if extra.len() == 0 {
        base
    } else {
        let shorter = append_missing(base, extra.drop_last());
        if shorter.contains(extra.last()) {
            shorter
        } else {
            shorter.push(extra.last())
        }
    }
}

/// The members of `seq` that also occur in `allowed`, in their order.
pub open spec fn keep_members<A>(seq: Seq<A>, allowed: Seq<A>) -> Seq<A> {
    seq.filter(|x: A| allowed.contains(x))
}

/// The place at which `x` stands first in `seq`; the length where it is not there.
pub open spec fn first_position<A>(seq: Seq<A>, x: A) -> int
    decreases seq.len(),
{
    if seq.len() == 0 || seq.first() == x {
        0
    } else {
        1 + first_position(seq.drop_first(), x)
    }
}

/// `i` is the first place at which `x` stands in `seq`.
pub open spec fn is_first_position<A>(seq: Seq<A>, x: A, i: int) -> bool {
    &&& 0 <= i < seq.len()
    &&& seq[i] == x
    &&& forall|j: int| 0 <= j < i ==> seq[j] != x
}

pub proof fn lemma_first_position<A>(seq: Seq<A>, x: A)
    ensures
        seq.contains(x) ==> is_first_position(seq, x, first_position(seq, x)),
        !seq.contains(x) ==> first_position(seq, x) == seq.len(),
        forall|i: int| #[trigger] is_first_position(seq, x, i) ==> i == first_position(seq, x),
    decreases seq.len(),
{
    if seq.len() > 0 {
        let rest = seq.drop_first();
        lemma_first_position(rest, x);
        if seq.first() == x {
            assert(seq.contains(x));
        } else {
            if seq.contains(x) {
                let k = choose|k: int| 0 <= k < seq.len() && seq[k] == x;
                assert(rest[k - 1] == x);
                assert(rest.contains(x));
                let i = first_position(rest, x);
                assert forall|j: int| 0 <= j < i + 1 implies seq[j] != x by {
                    if j > 0 {
                        assert(rest[j - 1] == seq[j]);
                    }
                }
                assert(is_first_position(seq, x, i + 1));
            } else if rest.contains(x) {
                let k = choose|k: int| 0 <= k < rest.len() && rest[k] == x;
                assert(seq[k + 1] == x);
            }
        }
        assert forall|i: int| #[trigger] is_first_position(seq, x, i) implies i == first_position(
            seq,
            x,
        ) by {
            assert(seq.contains(x));
            let place = first_position(seq, x);
            assert(is_first_position(seq, x, place));
            if i < place {
                assert(seq[i] != x);
            }
            if place < i {
                assert(seq[place] != x);
            }
        }
    }
}

pub proof fn lemma_append_missing_step<A>(base: Seq<A>, extra: Seq<A>, i: int)
    requires
        0 <= i < extra.len(),
    ensures
        append_missing(base, extra.take(i + 1)) == (if append_missing(base, extra.take(i)).contains(
            extra[i],
        ) {
            append_missing(base, extra.take(i))
        } else {
            append_missing(base, extra.take(i)).push(extra[i])
        }),
{
    assert(extra.take(i + 1).drop_last() =~= extra.take(i));
}

/// What `append_missing` yields has exactly the members of its two arguments,
/// starts with its first argument, and repeats nothing that the first did not
/// repeat.
pub proof fn lemma_append_missing<A>(base: Seq<A>, extra: Seq<A>)
    ensures
        forall|x: A| #[trigger]
            append_missing(base, extra).contains(x) <==> base.contains(x) || extra.contains(x),
        base.len() <= append_missing(base, extra).len() <= base.len() + extra.len(),
        append_missing(base, extra).take(base.len() as int) == base,
        base.no_duplicates() ==> append_missing(base, extra).no_duplicates(),
    decreases extra.len(),
{
    if extra.len() == 0 {
        assert(base.take(base.len() as int) =~= base);
    } else {
        let init = extra.drop_last();
        let last = extra.last();
        lemma_append_missing(base, init);
        let shorter = append_missing(base, init);
        let whole = append_missing(base, extra);
        assert(extra =~= init.push(last));
        assert forall|x: A| #[trigger] whole.contains(x) <==> base.contains(x) || extra.contains(
            x,
        ) by {
            assert(extra.contains(x) <==> init.contains(x) || x == last) by {
                if init.contains(x) {
                    let k = choose|k: int| 0 <= k < init.len() && init[k] == x;
                    assert(extra[k] == x);
                }
                if x == last {
                    assert(extra[extra.len() - 1] == x);
                }
            }
            if shorter.contains(x) {
                let k = choose|k: int| 0 <= k < shorter.len() && shorter[k] == x;
                assert(whole[k] == x);
            }
            if !shorter.contains(last) {
                assert(whole[shorter.len() as int] == last);
            }
        }
        assert(whole.take(base.len() as int) =~= shorter.take(base.len() as int));
    }
}

/// Nothing is appended when nothing is missing.
pub proof fn lemma_append_nothing_missing<A>(base: Seq<A>, extra: Seq<A>)
    requires
        forall|i: int| 0 <= i < extra.len() ==> base.contains(#[trigger] extra[i]),
    ensures
        append_missing(base, extra) == base,
    decreases extra.len(),
{
    if extra.len() > 0 {
        let init = extra.drop_last();
        assert forall|i: int| 0 <= i < init.len() implies base.contains(#[trigger] init[i]) by {
            assert(init[i] == extra[i]);
        }
        lemma_append_nothing_missing(base, init);
        assert(base.contains(extra[extra.len() - 1]));
    }
}

/// Distinct items that are all missing are all appended.
pub proof fn lemma_append_all_missing<A>(base: Seq<A>, extra: Seq<A>)
    requires
        extra.no_duplicates(),
        forall|i: int| 0 <= i < extra.len() ==> !base.contains(#[trigger] extra[i]),
    ensures
        append_missing(base, extra) == base + extra,
    decreases extra.len(),
{
    if extra.len() > 0 {
        let init = extra.drop_last();
        assert forall|i: int| 0 <= i < init.len() implies !base.contains(#[trigger] init[i]) by {
            assert(init[i] == extra[i]);
        }
        lemma_append_all_missing(base, init);
        assert(!(base + init).contains(extra.last())) by {
            if (base + init).contains(extra.last()) {
                let k = choose|k: int| 0 <= k < (base + init).len() && (base + init)[k]
                    == extra.last();
                if k < base.len() {
                    assert(base.contains(extra[extra.len() - 1]));
                } else {
                    assert(extra[k - base.len()] == extra[extra.len() - 1]);
                }
            }
        }
        assert(append_missing(base, extra) =~= base + extra);
    } else {
        assert(base + extra =~= base);
    }
}

pub proof fn lemma_keep_members_step<A>(seq: Seq<A>, allowed: Seq<A>, i: int)
    requires
        0 <= i < seq.len(),
    ensures
        keep_members(seq.take(i + 1), allowed) == (if allowed.contains(seq[i]) {
            keep_members(seq.take(i), allowed).push(seq[i])
        } else {
            keep_members(seq.take(i), allowed)
        }),
{
    reveal(Seq::filter);
    assert(seq.take(i + 1).drop_last() =~= seq.take(i));
}

/// `keep_members` holds exactly the common members, and repeats nothing that
/// `seq` did not repeat.
pub proof fn lemma_keep_members<A>(seq: Seq<A>, allowed: Seq<A>)
    ensures
        forall|x: A| #[trigger]
            keep_members(seq, allowed).contains(x) <==> seq.contains(x) && allowed.contains(x),
        keep_members(seq, allowed).len() <= seq.len(),
        seq.no_duplicates() ==> keep_members(seq, allowed).no_duplicates(),
    decreases seq.len(),
{
    let kept = keep_members(seq, allowed);
    if seq.len() == 0 {
        reveal(Seq::filter);
    } else {
        let init = seq.drop_last();
        let last = seq.last();
        lemma_keep_members(init, allowed);
        lemma_keep_members_step(seq, allowed, seq.len() - 1);
        assert(seq.take(seq.len() as int) =~= seq);
        assert(seq.take(seq.len() - 1) =~= init);
        let shorter = keep_members(init, allowed);
        assert forall|x: A| #[trigger] kept.contains(x) <==> seq.contains(x) && allowed.contains(
            x,
        ) by {
            assert(seq.contains(x) <==> init.contains(x) || x == last) by {
                if init.contains(x) {
                    let k = choose|k: int| 0 <= k < init.len() && init[k] == x;
                    assert(seq[k] == x);
                }
                if x == last {
                    assert(seq[seq.len() - 1] == x);
                }
                if seq.contains(x) && x != last {
                    let k = choose|k: int| 0 <= k < seq.len() && seq[k] == x;
                    assert(init[k] == x);
                }
            }
            if shorter.contains(x) {
                let k = choose|k: int| 0 <= k < shorter.len() && shorter[k] == x;
                assert(kept[k] == x);
            }
            if allowed.contains(last) {
                assert(kept[shorter.len() as int] == last);
            }
        }
        if seq.no_duplicates() {
            assert(init.no_duplicates()) by {
                assert forall|i: int, j: int|
                    0 <= i < init.len() && 0 <= j < init.len() && i != j implies init[i]
                    != init[j] by {
                    assert(seq[i] != seq[j]);
                }
            }
            assert(!init.contains(last)) by {
                if init.contains(last) {
                    let k = choose|k: int| 0 <= k < init.len() && init[k] == last;
                    assert(seq[k] == seq[seq.len() - 1]);
                }
            }
            assert(!shorter.contains(last));
        }
    }
}

/// Everything stays when everything is allowed.
pub proof fn lemma_keep_all_members<A>(seq: Seq<A>, allowed: Seq<A>)
    requires
        forall|i: int| 0 <= i < seq.len() ==> allowed.contains(#[trigger] seq[i]),
    ensures
        keep_members(seq, allowed) == seq,
    decreases seq.len(),
{
    reveal(Seq::filter);
    if seq.len() > 0 {
        let init = seq.drop_last();
        assert forall|i: int| 0 <= i < init.len() implies allowed.contains(#[trigger] init[i]) by {
            assert(init[i] == seq[i]);
        }
        lemma_keep_all_members(init, allowed);
        lemma_keep_members_step(seq, allowed, seq.len() - 1);
        assert(seq.take(seq.len() as int) =~= seq);
        assert(seq.take(seq.len() - 1) =~= init);
        assert(allowed.contains(seq[seq.len() - 1]));
        assert(keep_members(seq, allowed) =~= seq);
    } else {
        assert(keep_members(seq, allowed) =~= seq);
    }
}

/// Sequences without repetition that have the same members are equally long.
pub proof fn lemma_same_members_same_len<A>(one: Seq<A>, other: Seq<A>)
    requires
        one.no_duplicates(),
        other.no_duplicates(),
        forall|x: A| #[trigger] one.contains(x) <==> other.contains(x),
    ensures
        one.len() == other.len(),
{
    one.unique_seq_to_set();
    other.unique_seq_to_set();
    assert(one.to_set() =~= other.to_set());
}

/// The places below `n` that are kept, in ascending order.
pub open spec fn kept_places(n: nat, keep: spec_fn(int) -> bool) -> Seq<int>
    decreases n,
{
    if n == 0 {
        Seq::empty()
    } else {
        let rest = kept_places((n - 1) as nat, keep);
        if keep(n - 1) {
            rest.push(n - 1)
        } else {
            rest
        }
    }
}

pub proof fn lemma_kept_places(n: nat, keep: spec_fn(int) -> bool)
    ensures
        forall|k: int, m: int|
            0 <= k < m < kept_places(n, keep).len() ==> #[trigger] kept_places(n, keep)[k]
                < #[trigger] kept_places(n, keep)[m],
        forall|k: int|
            0 <= k < kept_places(n, keep).len() ==> 0 <= #[trigger] kept_places(n, keep)[k] < n
                && keep(kept_places(n, keep)[k]),
        forall|i: int| 0 <= i < n && #[trigger] keep(i) ==> kept_places(n, keep).contains(i),
    decreases n,
{
    if n > 0 {
        let rest = kept_places((n - 1) as nat, keep);
        let all = kept_places(n, keep);
        lemma_kept_places((n - 1) as nat, keep);
        assert forall|i: int| 0 <= i < n && #[trigger] keep(i) implies all.contains(i) by {
            if i < n - 1 {
                assert(rest.contains(i));
                let k = choose|k: int| 0 <= k < rest.len() && rest[k] == i;
                assert(all[k] == i);
            } else {
                assert(all[rest.len() as int] == i);
            }
        }
    }
}

} // verus!
