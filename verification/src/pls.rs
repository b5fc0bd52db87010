//! The listing core: a plain-value model of a directory subtree, the recursive
//! size aggregator over it, the per-child entry builder, and the pipeline that
//! turns one directory's children into an ordered list of entries with a total.

use vstd::prelude::*;

use crate::permissions;
use crate::sums::{
    lemma_sum_by_concat, lemma_sum_by_permutation, lemma_sum_by_pointwise,
    lemma_sum_by_prefix_bound, lemma_sum_by_take_succ, sum_by,
};

verus! {

/// A snapshot of a directory subtree, as the caller read it: a regular file
/// with its reported byte length, a directory with the children that could be
/// enumerated (or none, when it was unreadable), or anything else — a symlink,
/// a special file, or an entry whose metadata could not be read. Symlinks are
/// never followed inside a subtree snapshot, so the structure is finite and
/// aggregation terminates on any value of this type.
pub enum FsTree {
    File { len: u64 },
    Dir { readable: bool, children: Vec<FsTree> },
    Other,
}

/// The total byte size of the regular files in a subtree: a file counts its
/// length, a readable directory counts the sum over its children, an
/// unreadable directory and everything else (symlinks, specials, entries whose
/// metadata could not be read) contribute zero.
pub open spec fn spec_size(t: FsTree) -> nat
    decreases t,
{
    match t {
        FsTree::File { len } => len as nat,
        FsTree::Dir { readable, children } => if readable {
            sum_sizes(children@)
        } else {
            0
        },
        FsTree::Other => 0,
    }
}

/// The sum of `spec_size` over a sequence of subtrees.
pub open spec fn sum_sizes(s: Seq<FsTree>) -> nat
    decreases s,
{
    if s.len() == 0 {
        0
    } else {
        sum_sizes(s.drop_last()) + spec_size(s.last())
    }
}

/// `sum_sizes` is `sum_by` with `spec_size` as the weight, which makes the
/// general summation lemmas available for it.
pub proof fn lemma_sum_sizes_is_sum_by(s: Seq<FsTree>)
    ensures
        sum_sizes(s) == sum_by(s, |t: FsTree| spec_size(t)),
    decreases s.len(),
{
    if s.len() > 0 {
        lemma_sum_sizes_is_sum_by(s.drop_last());
    }
}

/// The child subtrees that are directories.
pub open spec fn dir_children(s: Seq<FsTree>) -> Seq<FsTree> {
    s.filter(|c: FsTree| c is Dir)
}

/// The child subtrees that are regular files.
pub open spec fn file_children(s: Seq<FsTree>) -> Seq<FsTree> {
    s.filter(|c: FsTree| c is File)
}

/// The reported lengths of a sequence of regular-file subtrees.
pub open spec fn file_lens(s: Seq<FsTree>) -> Seq<u64> {
    s.map_values(|c: FsTree| c->File_len)
}

/// The sum of a sequence of byte lengths.
pub open spec fn sum_lens(s: Seq<u64>) -> nat
    decreases s.len(),
{
    if s.len() == 0 {
        0
    } else {
        (sum_lens(s.drop_last()) + s.last()) as nat
    }
}

/// Appending one subtree adds exactly its size to the sum.
proof fn lemma_sum_sizes_push(s: Seq<FsTree>, t: FsTree)
    ensures
        sum_sizes(s.push(t)) == sum_sizes(s) + spec_size(t),
{
    assert(s.push(t).drop_last() =~= s);
    assert(s.push(t).last() == t);
}

/// The sum of the sizes of a sequence of subtrees splits into the part
/// contributed by the directories and the part contributed by the files;
/// everything else contributes zero.
proof fn lemma_sum_sizes_split(s: Seq<FsTree>)
    ensures
        sum_sizes(s) == sum_sizes(dir_children(s)) + sum_sizes(file_children(s)),
    decreases s.len(),
{
    if s.len() > 0 {
        lemma_sum_sizes_split(s.drop_last());
        let x = s.last();
        let rest = s.drop_last();
        assert(rest.push(x) =~= s);
        rest.lemma_filter_push(x, |c: FsTree| c is Dir);
        rest.lemma_filter_push(x, |c: FsTree| c is File);
        assert(sum_sizes(s) == sum_sizes(rest) + spec_size(x));
        if x is Dir {
            assert(dir_children(s) == dir_children(rest).push(x));
            assert(file_children(s) == file_children(rest));
            lemma_sum_sizes_push(dir_children(rest), x);
        } else if x is File {
            assert(dir_children(s) == dir_children(rest));
            assert(file_children(s) == file_children(rest).push(x));
            lemma_sum_sizes_push(file_children(rest), x);
        } else {
            assert(dir_children(s) == dir_children(rest));
            assert(file_children(s) == file_children(rest));
        }
    }
}

/// Over subtrees that are all regular files, the aggregate is the sum of the
/// file lengths.
proof fn lemma_sum_sizes_files(s: Seq<FsTree>)
    requires
        forall|i: int| 0 <= i < s.len() ==> s[i] is File,
    ensures
        sum_sizes(s) == sum_lens(file_lens(s)),
    decreases s.len(),
{
    if s.len() > 0 {
        assert(forall|i: int| 0 <= i < s.drop_last().len() ==> s.drop_last()[i] is File);
        lemma_sum_sizes_files(s.drop_last());
        assert(file_lens(s).drop_last() =~= file_lens(s.drop_last()));
        assert(file_lens(s).len() > 0);
        assert(sum_lens(file_lens(s)) == sum_lens(file_lens(s).drop_last()) + file_lens(s).last());
        assert(file_lens(s).last() == s.last()->File_len);
        assert(s.last() is File);
        assert(spec_size(s.last()) == s.last()->File_len as nat);
        assert(sum_sizes(s) == sum_sizes(s.drop_last()) + spec_size(s.last()));
    }
}

/// A readable directory whose children are all regular files of lengths
/// `s1..sn` aggregates to exactly `s1 + .. + sn`.
pub proof fn lemma_flat_dir_aggregate(t: FsTree)
    requires
        t is Dir,
        t->Dir_readable,
        forall|i: int| 0 <= i < t->Dir_children@.len() ==> t->Dir_children@[i] is File,
    ensures
        spec_size(t) == sum_lens(file_lens(t->Dir_children@)),
{
    lemma_sum_sizes_files(t->Dir_children@);
}

/// Aggregation is order-independent: two subtree sequences holding the same
/// elements (in any order) sum to the same value. An unordered parallel
/// reduction over the children therefore returns the same aggregate as a
/// sequential walk.
pub proof fn lemma_aggregate_order_independent(a: Seq<FsTree>, b: Seq<FsTree>)
    requires
        a.to_multiset() == b.to_multiset(),
    ensures
        sum_sizes(a) == sum_sizes(b),
{
    lemma_sum_sizes_is_sum_by(a);
    lemma_sum_sizes_is_sum_by(b);
    lemma_sum_by_permutation(a, b, |t: FsTree| spec_size(t));
}

/// Aggregation splits over any partition of the children: the halves can be
/// summed independently (by independent workers) and added, and the result is
/// the aggregate of the whole.
pub proof fn lemma_aggregate_split(a: Seq<FsTree>, b: Seq<FsTree>)
    ensures
        sum_sizes(a + b) == sum_sizes(a) + sum_sizes(b),
{
    lemma_sum_sizes_is_sum_by(a);
    lemma_sum_sizes_is_sum_by(b);
    lemma_sum_sizes_is_sum_by(a + b);
    lemma_sum_by_concat(a, b, |t: FsTree| spec_size(t));
}

/// Aggregation is compositional: a readable directory's aggregate is the sum
/// of the aggregates of its child directories plus the sum of the lengths of
/// its direct regular files; all other children contribute nothing.
pub proof fn lemma_aggregate_compositional(t: FsTree)
    requires
        t is Dir,
        t->Dir_readable,
    ensures
        spec_size(t) == sum_sizes(dir_children(t->Dir_children@)) + sum_lens(
            file_lens(file_children(t->Dir_children@)),
        ),
{
    lemma_sum_sizes_split(t->Dir_children@);
    broadcast use vstd::seq_lib::group_filter_ensures;

    lemma_sum_sizes_files(file_children(t->Dir_children@));
}

/// An unreadable directory contributes zero to any aggregate it appears in,
/// rather than failing the aggregation around it.
pub proof fn lemma_unreadable_dir_aggregates_zero(t: FsTree)
    requires
        t is Dir,
        !t->Dir_readable,
    ensures
        spec_size(t) == 0,
{
}

/// Computes the aggregate size of a subtree: the sum of the reported lengths
/// of every regular file transitively contained in it. Unreadable directories
/// and unreadable or non-file entries contribute zero rather than failing the
/// aggregation.
pub fn get_directory_size(tree: &FsTree) -> (r: u64)
    requires
        spec_size(*tree) <= u64::MAX,
    ensures
        r == spec_size(*tree),
    decreases *tree,
{
    match tree {
        FsTree::File { len } => *len,
        FsTree::Other => 0,
        FsTree::Dir { readable, children } => {
            if !*readable {
                0
            } else {
                proof {
                    lemma_sum_sizes_is_sum_by(children@);
                }
                let ghost f = |t: FsTree| spec_size(t);
                let mut total: u64 = 0;
                let mut i: usize = 0;
                while i < children.len()
                    invariant
                        i <= children.len(),
                        total == sum_by(children@.take(i as int), f),
                        f == (|t: FsTree| spec_size(t)),
                        sum_by(children@, f) <= u64::MAX,
                        *tree == (FsTree::Dir { readable: true, children: *children }),
                    decreases children.len() - i,
                {
                    proof {
                        lemma_sum_by_prefix_bound(children@, f, i as int);
                        lemma_sum_by_take_succ(children@, f, i as int);
                        assert(decreases_to!(*tree => tree->Dir_children));
                        assert(decreases_to!(tree->Dir_children => tree->Dir_children@));
                        assert(decreases_to!(tree->Dir_children@ => tree->Dir_children@[i as int]));
                        assert(decreases_to!(*tree => children@[i as int]));
                    }
                    let c = get_directory_size(&children[i]);
                    total = total + c;
                    i = i + 1;
                }
                proof {
                    assert(children@.take(children@.len() as int) =~= children@);
                }
                total
            }
        },
    }
}

/// The status of one path, as plain values: its type flags, its mode and its
/// reported byte length. The flags come from one stat call, so at most one of
/// them is set on real metadata; every combination is still handled.
#[derive(Clone, Copy)]
pub struct FileStat {
    pub is_file: bool,
    pub is_dir: bool,
    pub is_symlink: bool,
    pub mode: u32,
    pub len: u64,
}

/// What one entry is shown as. Classification always comes from link-level
/// metadata, so a symlink is shown as a symlink whether or not link following
/// is enabled for size computation.
#[derive(Clone, Copy, PartialEq, Eq, Structural, Debug)]
pub enum TypeClass {
    File,
    Directory,
    Symlink,
    Other,
}

/// The classification the link-level type flags give: a regular file first,
/// then a directory, then a symlink, and anything else is `Other`.
pub open spec fn spec_classify(is_file: bool, is_dir: bool, is_symlink: bool) -> TypeClass {
    if is_file {
        TypeClass::File
    } else if is_dir {
        TypeClass::Directory
    } else if is_symlink {
        TypeClass::Symlink
    } else {
        TypeClass::Other
    }
}

/// Classifies one entry from its link-level type flags.
pub fn classify(is_file: bool, is_dir: bool, is_symlink: bool) -> (r: TypeClass)
    ensures
        r == spec_classify(is_file, is_dir, is_symlink),
{
    if is_file {
        TypeClass::File
    } else if is_dir {
        TypeClass::Directory
    } else if is_symlink {
        TypeClass::Symlink
    } else {
        TypeClass::Other
    }
}

/// The run's configuration: the listed path, whether directory sizes are
/// aggregated recursively, and whether symlinks are followed when choosing the
/// metadata that supplies mode and length.
pub struct Args {
    pub path: String,
    pub recursive: bool,
    pub symlinks: bool,
}

/// One enumerated child of the listed directory, resolved to plain values by
/// the caller: its name and path, its link-level status, its target-level
/// status where link following was requested and the target could be resolved
/// (`None` otherwise — a broken link falls back to link metadata), and, when
/// recursive sizing was requested for a directory, a snapshot of its subtree
/// (`None` stands for a subtree that could not be read at all).
pub struct ChildInfo {
    pub file_name: String,
    pub path: String,
    pub link_stat: FileStat,
    pub target_stat: Option<FileStat>,
    pub subtree: Option<FsTree>,
}

/// One row of output.
pub struct Entry {
    pub permissions: String,
    pub type_class: TypeClass,
    pub size: u64,
    pub is_symlink: bool,
    pub file_name_str: String,
    pub path: String,
}

/// The metadata an entry's mode and length are taken from: the target's when
/// link following is on and the target was resolved, the link's otherwise.
pub open spec fn spec_chosen_stat(c: ChildInfo, follow: bool) -> FileStat {
    match c.target_stat {
        Option::Some(t) => if follow {
            t
        } else {
            c.link_stat
        },
        Option::None => c.link_stat,
    }
}

/// The size an entry reports: a directory aggregates its subtree snapshot when
/// recursive mode is on (zero when the subtree could not be read) and shows
/// zero otherwise; everything else shows the chosen metadata's length.
pub open spec fn spec_entry_size(c: ChildInfo, recursive: bool, follow: bool) -> nat {
    if c.link_stat.is_dir {
        if recursive {
            match c.subtree {
                Option::Some(t) => spec_size(t),
                Option::None => 0,
            }
        } else {
            0
        }
    } else {
        spec_chosen_stat(c, follow).len as nat
    }
}

/// What the entry built for a child says: its permission string renders the
/// chosen metadata's mode under the link-level type glyph, its classification
/// and symlink flag come from link metadata alone, its size follows
/// `spec_entry_size`, and its name and path are the child's.
pub open spec fn entry_matches(e: Entry, c: ChildInfo, args: Args) -> bool {
    &&& e.permissions@ == permissions::spec_permission_string(
        spec_chosen_stat(c, args.symlinks).mode,
        c.link_stat.is_dir,
        c.link_stat.is_symlink,
    )
    &&& e.type_class == spec_classify(
        c.link_stat.is_file,
        c.link_stat.is_dir,
        c.link_stat.is_symlink,
    )
    &&& e.size == spec_entry_size(c, args.recursive, args.symlinks)
    &&& e.is_symlink == c.link_stat.is_symlink
    &&& e.file_name_str@ == c.file_name@
    &&& e.path@ == c.path@
}

/// Builds the one entry a child is shown as. A directory is only aggregated
/// when recursive mode is on; without it every directory entry has size zero.
/// A symlink is classified as a symlink, never aggregated, and when its target
/// was not resolved its link metadata supplies mode and length.
pub fn parse_entries(c: ChildInfo, args: &Args) -> (e: Entry)
    requires
        spec_entry_size(c, args.recursive, args.symlinks) <= u64::MAX,
    ensures
        entry_matches(e, c, *args),
        !args.recursive && e.type_class is Directory ==> e.size == 0,
        c.link_stat.is_symlink && !c.link_stat.is_file && !c.link_stat.is_dir ==> e.type_class
            is Symlink,
{
    let link = c.link_stat;
    let stat = if args.symlinks {
        match &c.target_stat {
            Option::Some(t) => *t,
            Option::None => link,
        }
    } else {
        link
    };
    let size = if link.is_dir {
        if args.recursive {
            match &c.subtree {
                Option::Some(t) => get_directory_size(t),
                Option::None => 0,
            }
        } else {
            0
        }
    } else {
        stat.len
    };
    let permissions = permissions::to_string(stat.mode, link.is_dir, link.is_symlink);
    let type_class = classify(link.is_file, link.is_dir, link.is_symlink);
    Entry {
        permissions,
        type_class,
        size,
        is_symlink: link.is_symlink,
        file_name_str: c.file_name,
        path: c.path,
    }
}

/// Builds one entry per child, in the children's order. The caller may fan the
/// children out to parallel workers instead; the later sort restores one
/// deterministic order either way.
pub fn get_results(entries: Vec<ChildInfo>, args: Args) -> (r: Vec<Entry>)
    requires
        forall|i: int|
            0 <= i < entries@.len() ==> spec_entry_size(entries@[i], args.recursive, args.symlinks)
                <= u64::MAX,
    ensures
        r@.len() == entries@.len(),
        forall|i: int| 0 <= i < r@.len() ==> entry_matches(#[trigger] r@[i], entries@[i], args),
{
    let ghost orig = entries@;
    let mut rest = entries;
    let mut out: Vec<Entry> = Vec::new();
    while rest.len() > 0
        invariant
            out@.len() + rest@.len() == orig.len(),
            rest@ =~= orig.skip(out@.len() as int),
            forall|i: int|
                0 <= i < orig.len() ==> spec_entry_size(orig[i], args.recursive, args.symlinks)
                    <= u64::MAX,
            forall|i: int|
                0 <= i < out@.len() ==> entry_matches(#[trigger] out@[i], orig[i], args),
        decreases rest@.len(),
    {
        proof {
            assert(rest@[0] == orig[out@.len() as int]);
        }
        let c = rest.remove(0);
        let e = parse_entries(c, &args);
        out.push(e);
    }
    out
}

/// The sum of the sizes a sequence of entries reports.
pub open spec fn sum_entry_sizes(s: Seq<Entry>) -> nat
    decreases s.len(),
{
    if s.len() == 0 {
        0
    } else {
        (sum_entry_sizes(s.drop_last()) + s.last().size) as nat
    }
}

/// `sum_entry_sizes` as a `sum_by`, for the general summation lemmas.
pub proof fn lemma_sum_entry_sizes_is_sum_by(s: Seq<Entry>)
    ensures
        sum_entry_sizes(s) == sum_by(s, |e: Entry| e.size as nat),
    decreases s.len(),
{
    if s.len() > 0 {
        lemma_sum_entry_sizes_is_sum_by(s.drop_last());
    }
}

/// The sum of the sizes the entries built for these children will report.
pub open spec fn sum_child_sizes(s: Seq<ChildInfo>, recursive: bool, follow: bool) -> nat
    decreases s.len(),
{
    if s.len() == 0 {
        0
    } else {
        sum_child_sizes(s.drop_last(), recursive, follow) + spec_entry_size(
            s.last(),
            recursive,
            follow,
        )
    }
}

/// `sum_child_sizes` as a `sum_by`, for the general summation lemmas.
pub proof fn lemma_sum_child_sizes_is_sum_by(s: Seq<ChildInfo>, recursive: bool, follow: bool)
    ensures
        sum_child_sizes(s, recursive, follow) == sum_by(
            s,
            |c: ChildInfo| spec_entry_size(c, recursive, follow),
        ),
    decreases s.len(),
{
    if s.len() > 0 {
        lemma_sum_child_sizes_is_sum_by(s.drop_last(), recursive, follow);
    }
}

/// Sums the sizes of all entries.
pub fn total_size(entries: &Vec<Entry>) -> (r: u64)
    requires
        sum_entry_sizes(entries@) <= u64::MAX,
    ensures
        r == sum_entry_sizes(entries@),
{
    proof {
        lemma_sum_entry_sizes_is_sum_by(entries@);
    }
    let ghost f = |e: Entry| e.size as nat;
    let mut total: u64 = 0;
    let mut i: usize = 0;
    while i < entries.len()
        invariant
            i <= entries.len(),
            total == sum_by(entries@.take(i as int), f),
            f == (|e: Entry| e.size as nat),
            sum_by(entries@, f) <= u64::MAX,
        decreases entries@.len() - i,
    {
        proof {
            lemma_sum_by_prefix_bound(entries@, f, i as int);
            lemma_sum_by_take_succ(entries@, f, i as int);
        }
        total = total + entries[i].size;
        i = i + 1;
    }
    proof {
        assert(entries@.take(entries@.len() as int) =~= entries@);
    }
    total
}

/// The entries `m` are exactly what building one entry per child gives, in the
/// children's order.
pub open spec fn built_matches(m: Seq<Entry>, children: Seq<ChildInfo>, args: Args) -> bool {
    m.len() == children.len() && forall|i: int|
        0 <= i < m.len() ==> entry_matches(#[trigger] m[i], children[i], args)
}

/// The whole pipeline for one directory: build one entry per enumerated child,
/// order the entries deterministically (directories first, ties by name,
/// arrival order kept among equals), and total their sizes. The total equals
/// the sum the children prescribe and the sum the returned entries report; in
/// non-recursive mode every directory entry in the result has size zero.
pub fn list(children: Vec<ChildInfo>, args: Args) -> (r: (u64, Vec<Entry>))
    requires
        sum_child_sizes(children@, args.recursive, args.symlinks) <= u64::MAX,
    ensures
        exists|m: Seq<Entry>|
            built_matches(m, children@, args) && r.1@ == #[trigger] crate::sort::spec_sort_entries(
                m,
            ),
        crate::sort::sorted(r.1@),
        r.1@.len() == children@.len(),
        r.0 == sum_child_sizes(children@, args.recursive, args.symlinks),
        r.0 == sum_entry_sizes(r.1@),
        !args.recursive ==> forall|i: int|
            0 <= i < r.1@.len() && (#[trigger] r.1@[i]).type_class is Directory ==> r.1@[i].size
                == 0,
{
    broadcast use vstd::seq_lib::group_to_multiset_ensures;

    let ghost cs = children@;
    let ghost g = |c: ChildInfo| spec_entry_size(c, args.recursive, args.symlinks);
    let ghost f = |e: Entry| e.size as nat;
    proof {
        lemma_sum_child_sizes_is_sum_by(cs, args.recursive, args.symlinks);
        assert forall|i: int| 0 <= i < cs.len() implies spec_entry_size(
            #[trigger] cs[i],
            args.recursive,
            args.symlinks,
        ) <= u64::MAX by {
            lemma_sum_by_prefix_bound(cs, g, i);
        }
    }
    let entries = get_results(children, args);
    let ghost m = entries@;
    proof {
        lemma_sum_by_pointwise(m, cs, f, g);
        lemma_sum_entry_sizes_is_sum_by(m);
    }
    let total = total_size(&entries);
    let ordered = crate::sort::sort_entries(entries);
    proof {
        crate::sort::lemma_sort_entries_sorted(m);
        crate::sort::lemma_sort_entries_permutes(m);
        lemma_sum_entry_sizes_is_sum_by(ordered@);
        lemma_sum_by_permutation(ordered@, m, f);
        assert(built_matches(m, cs, args));
        assert(ordered@ == crate::sort::spec_sort_entries(m));
        assert(ordered@.len() == ordered@.to_multiset().len());
        assert(m.len() == m.to_multiset().len());
        assert forall|i: int|
            0 <= i < ordered@.len() && !args.recursive && (#[trigger] ordered@[i]).type_class
                is Directory implies ordered@[i].size == 0 by {
            let e = ordered@[i];
            assert(ordered@.contains(e));
            assert(ordered@.to_multiset().count(e) > 0);
            assert(m.to_multiset().count(e) > 0);
            assert(m.contains(e));
            let j = choose|j: int| 0 <= j < m.len() && m[j] == e;
            assert(entry_matches(m[j], cs[j], args));
        }
    }
    (total, ordered)
}

} // verus!
