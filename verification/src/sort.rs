//! The deterministic listing order: directories first, ties broken by name in
//! codepoint order, equal keys kept in arrival order. The sort is specified as
//! repeated ordered insertion; the laws below show it is sorted under a total,
//! transitive order, a permutation of its input, and stable.

use vstd::multiset::Multiset;
use vstd::prelude::*;
use vstd::seq_lib::lemma_multiset_commutative;
use vstd::string::StrSliceExecFns;

use crate::order::{
    lemma_lex_le_total, lemma_lex_le_transitive, lex_le, str_lex_le,
};
use crate::pls::{Entry, TypeClass};

verus! {

/// Where an entry sorts by type: directories come before everything else.
pub open spec fn dir_rank(e: Entry) -> int {
    if e.type_class is Directory {
        0
    } else {
        1
    }
}

/// The listing order: a directory comes before a non-directory, and within one
/// group names decide, case-sensitively, by codepoint.
pub open spec fn entry_le(a: Entry, b: Entry) -> bool {
    dir_rank(a) < dir_rank(b) || (dir_rank(a) == dir_rank(b) && lex_le(
        a.file_name_str@,
        b.file_name_str@,
    ))
}

/// The order is total over any two entries.
pub proof fn lemma_entry_le_total(a: Entry, b: Entry)
    ensures
        entry_le(a, b) || entry_le(b, a),
{
    lemma_lex_le_total(a.file_name_str@, b.file_name_str@);
}

/// The order is transitive.
pub proof fn lemma_entry_le_transitive(a: Entry, b: Entry, c: Entry)
    requires
        entry_le(a, b),
        entry_le(b, c),
    ensures
        entry_le(a, c),
{
    if dir_rank(a) == dir_rank(b) && dir_rank(b) == dir_rank(c) {
        lemma_lex_le_transitive(a.file_name_str@, b.file_name_str@, c.file_name_str@);
    }
}

/// Two entries tie in the order exactly when they share rank and name.
pub open spec fn same_key(e: Entry, rank: int, name: Seq<char>) -> bool {
    dir_rank(e) == rank && e.file_name_str@ == name
}

/// The subsequence of entries with one given sort key, in their original order.
pub open spec fn key_filter(s: Seq<Entry>, rank: int, name: Seq<char>) -> Seq<Entry> {
    s.filter(|x: Entry| same_key(x, rank, name))
}

/// An entry ties with itself and with anything sharing its key.
proof fn lemma_same_key_le(u: Entry, e: Entry)
    requires
        same_key(u, dir_rank(e), e.file_name_str@),
    ensures
        entry_le(u, e),
{
    lemma_lex_le_total(u.file_name_str@, e.file_name_str@);
}

/// `e` placed into `s` after every element that comes no later than it.
pub open spec fn insert_ordered(e: Entry, s: Seq<Entry>) -> Seq<Entry>
    decreases s.len(),
{
    if s.len() == 0 {
        seq![e]
    } else if entry_le(s[0], e) {
        seq![s[0]] + insert_ordered(e, s.drop_first())
    } else {
        seq![e] + s
    }
}

/// The listing order applied to a whole sequence: each element, left to right,
/// inserted into the sorted image of what came before it.
pub open spec fn spec_sort_entries(s: Seq<Entry>) -> Seq<Entry>
    decreases s.len(),
{
    if s.len() == 0 {
        Seq::empty()
    } else {
        insert_ordered(s.last(), spec_sort_entries(s.drop_last()))
    }
}

/// Every prefix of `s` up to `j` comes no later than `e`, and position `j`
/// (when it exists) comes strictly later: then inserting `e` splits `s` at `j`.
proof fn lemma_insert_ordered_at(e: Entry, s: Seq<Entry>, j: int)
    requires
        0 <= j <= s.len(),
        forall|i: int| 0 <= i < j ==> entry_le(#[trigger] s[i], e),
        j < s.len() ==> !entry_le(s[j], e),
    ensures
        insert_ordered(e, s) == s.take(j) + seq![e] + s.skip(j),
    decreases s.len(),
{
    if s.len() == 0 {
        assert(insert_ordered(e, s) =~= s.take(j) + seq![e] + s.skip(j));
    } else if j == 0 {
        assert(s.take(0) =~= Seq::<Entry>::empty());
        assert(s.skip(0) =~= s);
        assert(insert_ordered(e, s) =~= s.take(0) + seq![e] + s.skip(0));
    } else {
        assert(entry_le(s[0], e));
        let rest = s.drop_first();
        assert(forall|i: int| 0 <= i < j - 1 ==> entry_le(#[trigger] rest[i], e));
        lemma_insert_ordered_at(e, rest, j - 1);
        assert(rest.take(j - 1) =~= s.take(j).drop_first());
        assert(rest.skip(j - 1) =~= s.skip(j));
        assert(insert_ordered(e, s) =~= s.take(j) + seq![e] + s.skip(j));
    }
}

/// The split point exists for any sorted target: the length of the longest
/// prefix that comes no later than `e`.
proof fn lemma_insert_ordered_decomp(e: Entry, s: Seq<Entry>) -> (j: int)
    requires
        sorted(s),
    ensures
        0 <= j <= s.len(),
        insert_ordered(e, s) == s.take(j) + seq![e] + s.skip(j),
        forall|i: int| 0 <= i < j ==> entry_le(#[trigger] s[i], e),
        forall|i: int| j <= i < s.len() ==> !entry_le(#[trigger] s[i], e),
    decreases s.len(),
{
    if s.len() == 0 {
        lemma_insert_ordered_at(e, s, 0);
        0
    } else if entry_le(s[0], e) {
        let rest = s.drop_first();
        let j0 = lemma_insert_ordered_decomp(e, rest);
        let j = j0 + 1;
        assert(forall|i: int| 0 <= i < j ==> entry_le(#[trigger] s[i], e)) by {
            assert(forall|i: int| 1 <= i < j ==> s[i] == rest[i - 1]);
        }
        assert(forall|i: int| j <= i < s.len() ==> !entry_le(#[trigger] s[i], e)) by {
            assert(forall|i: int| j <= i < s.len() ==> s[i] == rest[i - 1]);
        }
        lemma_insert_ordered_at(e, s, j);
        j
    } else {
        assert(forall|i: int| 0 <= i < s.len() ==> entry_le(s[0], #[trigger] s[i]) || i == 0);
        assert(forall|i: int| 0 <= i < s.len() ==> !entry_le(#[trigger] s[i], e)) by {
            assert forall|i: int| 0 < i < s.len() && entry_le(#[trigger] s[i], e) implies false by {
                lemma_entry_le_transitive(s[0], s[i], e);
            }
        }
        lemma_insert_ordered_at(e, s, 0);
        0
    }
}

/// The listing order, stated of a whole sequence.
pub open spec fn sorted(s: Seq<Entry>) -> bool {
    forall|i: int, j: int| 0 <= i < j < s.len() ==> entry_le(#[trigger] s[i], #[trigger] s[j])
}

/// Ordered insertion into a sorted sequence keeps it sorted.
proof fn lemma_insert_ordered_sorted(e: Entry, s: Seq<Entry>)
    requires
        sorted(s),
    ensures
        sorted(insert_ordered(e, s)),
{
    let j = lemma_insert_ordered_decomp(e, s);
    let out = insert_ordered(e, s);
    assert forall|p: int, q: int| 0 <= p < q < out.len() implies entry_le(out[p], out[q]) by {
        if p < j && q == j {
            assert(out[p] == s[p]);
        } else if p == j && q > j {
            assert(out[q] == s[q - 1]);
            lemma_entry_le_total(e, s[q - 1]);
        } else if p < j && q > j {
            assert(out[p] == s[p]);
            assert(out[q] == s[q - 1]);
        } else if q < j {
            assert(out[p] == s[p]);
            assert(out[q] == s[q]);
        } else {
            assert(out[p] == s[p - 1]);
            assert(out[q] == s[q - 1]);
        }
    }
}

/// The sorted image is sorted: a directory never follows a non-directory, and
/// within one group names never decrease.
pub proof fn lemma_sort_entries_sorted(s: Seq<Entry>)
    ensures
        sorted(spec_sort_entries(s)),
    decreases s.len(),
{
    if s.len() > 0 {
        lemma_sort_entries_sorted(s.drop_last());
        lemma_insert_ordered_sorted(s.last(), spec_sort_entries(s.drop_last()));
    }
}

/// Ordered insertion adds exactly the inserted element to the contents.
proof fn lemma_insert_ordered_multiset(e: Entry, s: Seq<Entry>)
    requires
        sorted(s),
    ensures
        insert_ordered(e, s).to_multiset() =~= s.to_multiset().insert(e),
{
    broadcast use vstd::seq_lib::group_to_multiset_ensures;

    let j = lemma_insert_ordered_decomp(e, s);
    lemma_multiset_commutative(s.take(j) + seq![e], s.skip(j));
    lemma_multiset_commutative(s.take(j), seq![e]);
    lemma_multiset_commutative(s.take(j), s.skip(j));
    assert(s.take(j) + s.skip(j) =~= s);
    assert(seq![e].to_multiset() =~= Multiset::<Entry>::empty().insert(e)) by {
        assert(seq![e] =~= Seq::<Entry>::empty().push(e));
        assert(Seq::<Entry>::empty().to_multiset() =~= Multiset::<Entry>::empty());
    }
}

/// Sorting permutes: the sorted image holds exactly the input's entries.
pub proof fn lemma_sort_entries_permutes(s: Seq<Entry>)
    ensures
        spec_sort_entries(s).to_multiset() =~= s.to_multiset(),
    decreases s.len(),
{
    broadcast use vstd::seq_lib::group_to_multiset_ensures;

    if s.len() > 0 {
        lemma_sort_entries_permutes(s.drop_last());
        lemma_sort_entries_sorted(s.drop_last());
        lemma_insert_ordered_multiset(s.last(), spec_sort_entries(s.drop_last()));
        assert(s.drop_last().push(s.last()) =~= s);
    }
}

/// Inserting an entry appends it to its own key class and leaves every other
/// key class unchanged.
proof fn lemma_insert_ordered_stable(e: Entry, s: Seq<Entry>, rank: int, name: Seq<char>)
    requires
        sorted(s),
    ensures
        key_filter(insert_ordered(e, s), rank, name) == if same_key(e, rank, name) {
            key_filter(s, rank, name).push(e)
        } else {
            key_filter(s, rank, name)
        },
{
    let pred = |x: Entry| same_key(x, rank, name);
    let j = lemma_insert_ordered_decomp(e, s);
    Seq::filter_distributes_over_add(s.take(j) + seq![e], s.skip(j), pred);
    Seq::filter_distributes_over_add(s.take(j), seq![e], pred);
    Seq::filter_distributes_over_add(s.take(j), s.skip(j), pred);
    assert(s.take(j) + s.skip(j) =~= s);
    reveal(Seq::filter);
    assert(seq![e].drop_last() =~= Seq::<Entry>::empty());
    if same_key(e, rank, name) {
        assert(seq![e].filter(pred) =~= seq![e]);
        assert(s.skip(j).filter(pred) =~= Seq::<Entry>::empty()) by {
            assert forall|i: int| 0 <= i < s.skip(j).len() implies !pred(s.skip(j)[i]) by {
                assert(s.skip(j)[i] == s[j + i]);
                if pred(s[j + i]) {
                    assert(same_key(s[j + i], dir_rank(e), e.file_name_str@));
                    lemma_same_key_le(s[j + i], e);
                }
            }
            s.skip(j).lemma_all_neg_filter_empty(pred);
        }
        assert(key_filter(insert_ordered(e, s), rank, name) =~= key_filter(s, rank, name).push(e));
    } else {
        assert(Seq::<Entry>::empty().filter(pred) =~= Seq::<Entry>::empty());
        assert(seq![e].last() == e && !pred(e));
        assert(seq![e].filter(pred) =~= Seq::<Entry>::empty());
        assert(key_filter(insert_ordered(e, s), rank, name) =~= key_filter(s, rank, name));
    }
}

/// Sorting is stable: for every sort key, the entries carrying that key appear
/// in the sorted image in exactly the order they arrived in.
pub proof fn lemma_sort_entries_stable(s: Seq<Entry>, rank: int, name: Seq<char>)
    ensures
        key_filter(spec_sort_entries(s), rank, name) == key_filter(s, rank, name),
    decreases s.len(),
{
    if s.len() > 0 {
        let pred = |x: Entry| same_key(x, rank, name);
        lemma_sort_entries_stable(s.drop_last(), rank, name);
        lemma_sort_entries_sorted(s.drop_last());
        lemma_insert_ordered_stable(s.last(), spec_sort_entries(s.drop_last()), rank, name);
        assert(s.drop_last().push(s.last()) =~= s);
        s.drop_last().lemma_filter_push(s.last(), pred);
    }
}

/// Compares two entries in the listing order.
pub fn entry_le_exec(a: &Entry, b: &Entry) -> (r: bool)
    ensures
        r == entry_le(*a, *b),
{
    let a_dir = a.type_class == TypeClass::Directory;
    let b_dir = b.type_class == TypeClass::Directory;
    if a_dir == b_dir {
        str_lex_le(a.file_name_str.as_str(), b.file_name_str.as_str())
    } else {
        a_dir
    }
}

/// Sorts the entries into the listing order: directories first, then by name,
/// entries with equal keys kept in arrival order. Running it twice on the same
/// input returns the same sequence, since the result is a function of the
/// input alone.
pub fn sort_entries(entries: Vec<Entry>) -> (r: Vec<Entry>)
    ensures
        r@ == spec_sort_entries(entries@),
        sorted(r@),
        r@.to_multiset() == entries@.to_multiset(),
{
    let ghost orig = entries@;
    let mut rest = entries;
    let mut out: Vec<Entry> = Vec::new();
    while rest.len() > 0
        invariant
            out@.len() + rest@.len() == orig.len(),
            rest@ =~= orig.skip(out@.len() as int),
            out@ == spec_sort_entries(orig.take(out@.len() as int)),
        decreases rest@.len(),
    {
        let ghost k = out@.len() as int;
        proof {
            assert(rest@[0] == orig[k]);
        }
        let e = rest.remove(0);
        let mut j: usize = 0;
        loop
            invariant
                j <= out.len(),
                forall|i: int| 0 <= i < j ==> entry_le(#[trigger] out@[i], e),
                out@ == spec_sort_entries(orig.take(k)),
                e == orig[k],
                0 <= k < orig.len(),
            ensures
                j <= out.len(),
                forall|i: int| 0 <= i < j ==> entry_le(#[trigger] out@[i], e),
                j < out.len() ==> !entry_le(out@[j as int], e),
                out@ == spec_sort_entries(orig.take(k)),
                e == orig[k],
            decreases out.len() - j,
        {
            if j >= out.len() {
                break ;
            }
            if !entry_le_exec(&out[j], &e) {
                break ;
            }
            j = j + 1;
        }
        proof {
            lemma_insert_ordered_at(e, out@, j as int);
            assert(out@.take(j as int).push(e) =~= out@.take(j as int) + seq![e]);
            assert(orig.take(k + 1).drop_last() =~= orig.take(k));
            assert(orig.take(k + 1).last() == orig[k]);
        }
        out.insert(j, e);
        proof {
            assert(out@ =~= spec_sort_entries(orig.take(k + 1)));
        }
    }
    proof {
        assert(orig.take(orig.len() as int) =~= orig);
        lemma_sort_entries_sorted(orig);
        lemma_sort_entries_permutes(orig);
    }
    out
}

} // verus!