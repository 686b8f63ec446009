//! The mathematical model of line splitting: what the records of a byte
//! buffer are, and the laws that relate splitting to concatenation.

use vstd::prelude::*;

verus! {

/// The byte that ends a line record.
pub const NL: u8 = 10;

/// Index of the first newline byte of `s`, or -1 when `s` holds none.
pub open spec fn first_nl(s: Seq<u8>) -> int
    decreases s.len(),
{
    if s.len() == 0 {
        -1
    } else if s[0] == NL {
        0
    } else if first_nl(s.skip(1)) < 0 {
        -1
    } else {
        first_nl(s.skip(1)) + 1
    }
}

/// The newline-terminated records of `s`, in order, each without its
/// newline. A trailing chunk that no newline follows is not a record.
pub open spec fn lines_of(s: Seq<u8>) -> Seq<Seq<u8>>
    decreases s.len(),
{
    let k = first_nl(s);
    if 0 <= k < s.len() {
        seq![s.subrange(0, k)] + lines_of(s.skip(k + 1))
    } else {
        Seq::empty()
    }
}

/// The bytes that a sequence of records stands for: each record with a
/// newline appended, concatenated in order.
pub open spec fn unlines(ls: Seq<Seq<u8>>) -> Seq<u8>
    decreases ls.len(),
{
    if ls.len() == 0 {
        Seq::empty()
    } else {
        ls[0] + seq![NL] + unlines(ls.skip(1))
    }
}

/// Every record of `s` ends with a newline: `s` is empty or its last byte
/// is a newline.
pub open spec fn newline_terminated(s: Seq<u8>) -> bool {
    s.len() == 0 || s[s.len() - 1] == NL
}

/// `first_nl` names the first newline: it lies within `s`, it is a newline,
/// nothing before it is one, and -1 means no byte of `s` is one.
pub proof fn lemma_first_nl_spec(s: Seq<u8>)
    ensures
        -1 <= first_nl(s) < s.len(),
        first_nl(s) >= 0 ==> s[first_nl(s)] == NL,
        forall|j: int| 0 <= j < first_nl(s) ==> s[j] != NL,
        first_nl(s) == -1 ==> forall|j: int| 0 <= j < s.len() ==> s[j] != NL,
    decreases s.len(),
{
    if s.len() == 0 {
    } else if s[0] == NL {
    } else {
        let t = s.skip(1);
        lemma_first_nl_spec(t);
        assert forall|j: int| 0 <= j < first_nl(s) implies s[j] != NL by {
            if j > 0 {
                assert(t[j - 1] == s[j]);
            }
        }
        if first_nl(s) == -1 {
            assert forall|j: int| 0 <= j < s.len() implies s[j] != NL by {
                if j > 0 {
                    assert(t[j - 1] == s[j]);
                }
            }
        }
    }
}

/// A newline at `k` with none before it is the first: `first_nl(s) == k`.
pub proof fn lemma_first_nl_at(s: Seq<u8>, k: int)
    requires
        0 <= k < s.len(),
        s[k] == NL,
        forall|j: int| 0 <= j < k ==> s[j] != NL,
    ensures
        first_nl(s) == k,
    decreases s.len(),
{
    if k == 0 {
    } else {
        assert(s[0] != NL);
        assert(forall|j: int| 0 <= j < s.skip(1).len() ==> s.skip(1)[j] == s[j + 1]);
        lemma_first_nl_at(s.skip(1), k - 1);
    }
}

/// A buffer without a newline has no first newline and no records.
pub proof fn lemma_no_nl(s: Seq<u8>)
    requires
        forall|j: int| 0 <= j < s.len() ==> s[j] != NL,
    ensures
        first_nl(s) == -1,
        lines_of(s) == Seq::<Seq<u8>>::empty(),
    decreases s.len(),
{
    if s.len() == 0 {
    } else {
        assert(forall|j: int| 0 <= j < s.skip(1).len() ==> s.skip(1)[j] == s[j + 1]);
        lemma_no_nl(s.skip(1));
    }
}

/// An empty buffer yields no records.
pub proof fn lemma_lines_of_empty(s: Seq<u8>)
    requires
        s.len() == 0,
    ensures
        lines_of(s).len() == 0,
{
    lemma_no_nl(s);
}

/// Unfolding `unlines` one record at a time.
proof fn lemma_unlines_cons(a: Seq<u8>, ls: Seq<Seq<u8>>)
    ensures
        unlines(seq![a] + ls) == a + seq![NL] + unlines(ls),
{
    let c = seq![a] + ls;
    assert(c[0] == a);
    assert(c.skip(1) =~= ls);
}

/// Splitting inverts joining: a buffer built from records that hold no
/// newline is split back into exactly those records, in order, each with
/// its newline stripped.
pub proof fn lemma_lines_of_unlines(ls: Seq<Seq<u8>>)
    requires
        forall|i: int| 0 <= i < ls.len() ==> !ls[i].contains(NL),
    ensures
        lines_of(unlines(ls)) == ls,
    decreases ls.len(),
{
    if ls.len() == 0 {
        assert(lines_of(unlines(ls)) =~= ls);
    } else {
        let a = ls[0];
        let rest = ls.skip(1);
        assert(seq![a] + rest =~= ls);
        lemma_unlines_cons(a, rest);
        let s = unlines(ls);
        assert(s == a + seq![NL] + unlines(rest));
        assert(s[a.len() as int] == NL);
        assert forall|j: int| 0 <= j < a.len() implies s[j] != NL by {
            assert(s[j] == a[j]);
            if a[j] == NL {
                assert(a.contains(NL));
            }
        }
        lemma_first_nl_at(s, a.len() as int);
        assert(s.subrange(0, a.len() as int) =~= a);
        assert(s.skip(a.len() as int + 1) =~= unlines(rest));
        assert(forall|i: int| 0 <= i < rest.len() ==> !#[trigger] rest[i].contains(NL));
        lemma_lines_of_unlines(rest);
        assert(lines_of(s) == seq![a] + lines_of(s.skip(a.len() as int + 1)));
        assert(lines_of(unlines(ls)) =~= ls);
    }
}

/// Joining inverts splitting: for a buffer whose bytes are newline
/// terminated throughout, concatenating each record with a newline
/// appended restores the buffer exactly.
pub proof fn lemma_round_trip(s: Seq<u8>)
    requires
        newline_terminated(s),
    ensures
        unlines(lines_of(s)) == s,
    decreases s.len(),
{
    if s.len() == 0 {
        lemma_no_nl(s);
        assert(unlines(lines_of(s)) =~= s);
    } else {
        lemma_first_nl_spec(s);
        let k = first_nl(s);
        assert(k >= 0) by {
            if k == -1 {
                assert(s[s.len() - 1] != NL);
            }
        }
        let rest = s.skip(k + 1);
        assert(rest.len() > 0 ==> rest[rest.len() - 1] == s[s.len() - 1]);
        lemma_round_trip(rest);
        assert(lines_of(s) == seq![s.subrange(0, k)] + lines_of(rest));
        lemma_unlines_cons(s.subrange(0, k), lines_of(rest));
        assert(unlines(lines_of(s)) == s.subrange(0, k) + seq![NL] + rest);
        assert(s.subrange(0, k) + seq![NL] + rest =~= s);
    }
}

/// A trailing chunk that no newline follows is dropped: appending such a
/// chunk to a newline-terminated buffer does not change its records.
pub proof fn lemma_trailing_dropped(s: Seq<u8>, t: Seq<u8>)
    requires
        newline_terminated(s),
        !t.contains(NL),
    ensures
        lines_of(s + t) == lines_of(s),
    decreases s.len(),
{
    if s.len() == 0 {
        assert(s + t =~= t);
        assert forall|j: int| 0 <= j < t.len() implies t[j] != NL by {
            if t[j] == NL {
                assert(t.contains(NL));
            }
        }
        lemma_no_nl(t);
        lemma_no_nl(s);
    } else {
        lemma_first_nl_spec(s);
        let k = first_nl(s);
        assert(k >= 0) by {
            if k == -1 {
                assert(s[s.len() - 1] != NL);
            }
        }
        let u = s + t;
        assert(u[k] == s[k]);
        assert forall|j: int| 0 <= j < k implies u[j] != NL by {
            assert(u[j] == s[j]);
        }
        lemma_first_nl_at(u, k);
        let rest = s.skip(k + 1);
        assert(rest.len() > 0 ==> rest[rest.len() - 1] == s[s.len() - 1]);
        lemma_trailing_dropped(rest, t);
        assert(u.skip(k + 1) =~= rest + t);
        assert(u.subrange(0, k) =~= s.subrange(0, k));
        assert(lines_of(u) == seq![u.subrange(0, k)] + lines_of(u.skip(k + 1)));
        assert(lines_of(s) == seq![s.subrange(0, k)] + lines_of(rest));
    }
}

} // verus!
