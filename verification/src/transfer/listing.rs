//! Listings of directories: which entries they hold, and in which order.

use vstd::prelude::*;

use crate::paths::{file_name, name_of, parse, path_of};
use crate::text::{
    occurs_in, text_before, text_contains, text_is_before, text_order_is_total,
    text_order_is_transitive,
};
use crate::transfer::manifest::FileType;
use crate::transfer::messages::{text_of, FileInfo, FileInfoView};
use crate::transfer::options::{ListOptions, SortBy};

verus! {

/// The entries of a listing, seen as plain values.
pub open spec fn shown_files(files: Seq<FileInfo>) -> Seq<FileInfoView> {
    files.map_values(|f: FileInfo| f@)
}

/// Whether an entry may come before another.
pub open spec fn in_order(a: FileInfoView, b: FileInfoView, by: SortBy) -> bool {
    match by {
        SortBy::Name => !text_before(b.path, a.path),
        SortBy::Size => a.size <= b.size,
        SortBy::ModifiedTime => a.modified_at <= b.modified_at,
    }
}

/// Whether two entries rank alike.
pub open spec fn rank_alike(a: FileInfoView, b: FileInfoView, by: SortBy) -> bool {
    in_order(a, b, by) && in_order(b, a, by)
}

/// Whether the entries are in order.
pub open spec fn is_ordered(files: Seq<FileInfoView>, by: SortBy) -> bool {
    forall|i: int, j: int|
        0 <= i < j < files.len() ==> #[trigger] in_order(files[i], files[j], by)
}

/// The entries that rank like a given one, in their order.
pub open spec fn ranked_like(files: Seq<FileInfoView>, like: FileInfoView, by: SortBy) -> Seq<FileInfoView> {
    files.filter(|f: FileInfoView| rank_alike(f, like, by))
}

/// Whether a listing is another one sorted: the same entries in order, in which those that rank
/// alike have kept their order.
pub open spec fn is_sorting(before: Seq<FileInfoView>, after: Seq<FileInfoView>, by: SortBy) -> bool {
    &&& is_ordered(after, by)
    &&& after.to_multiset() == before.to_multiset()
    &&& forall|like: FileInfoView| #[trigger]
        ranked_like(after, like, by) == ranked_like(before, like, by)
}

proof fn order_is_total(a: FileInfoView, b: FileInfoView, by: SortBy)
    ensures
        in_order(a, b, by) || in_order(b, a, by),
        in_order(a, a, by),
{
    text_order_is_total(a.path, b.path);
}

proof fn order_is_transitive(a: FileInfoView, b: FileInfoView, c: FileInfoView, by: SortBy)
    requires
        in_order(a, b, by),
        in_order(b, c, by),
    ensures
        in_order(a, c, by),
{
    if by is Name && text_before(c.path, a.path) {
        text_order_is_total(a.path, b.path);
        text_order_is_total(b.path, c.path);
        if a.path != b.path && b.path != c.path {
            text_order_is_transitive(a.path, b.path, c.path);
            text_order_is_total(a.path, c.path);
            if a.path == c.path {
                text_order_is_total(a.path, a.path);
            }
        }
    }
}

/// Two ordered lists merged into one. Where entries rank alike, those of the first come first.
spec fn merged(l: Seq<FileInfoView>, r: Seq<FileInfoView>, by: SortBy) -> Seq<FileInfoView>
    decreases l.len() + r.len(),
{
    if l.len() == 0 {
        r
    } else if r.len() == 0 {
        l
    } else if in_order(l.last(), r.last(), by) {
        merged(l, r.drop_last(), by).push(r.last())
    } else {
        merged(l.drop_last(), r, by).push(l.last())
    }
}

proof fn ordered_without_last(s: Seq<FileInfoView>, by: SortBy)
    requires
        is_ordered(s, by),
        s.len() > 0,
    ensures
        is_ordered(s.drop_last(), by),
        forall|i: int| 0 <= i < s.len() ==> in_order(#[trigger] s[i], s.last(), by),
{
    let rest = s.drop_last();
    assert forall|i: int, j: int| 0 <= i < j < rest.len() implies #[trigger] in_order(
        rest[i],
        rest[j],
        by,
    ) by {
        assert(in_order(s[i], s[j], by));
    }
    assert forall|i: int| 0 <= i < s.len() implies in_order(#[trigger] s[i], s.last(), by) by {
        order_is_total(s.last(), s.last(), by);
        if i < s.len() - 1 {
            assert(in_order(s[i], s[s.len() - 1], by));
        }
    }
}

proof fn merged_stays_below(
    l: Seq<FileInfoView>,
    r: Seq<FileInfoView>,
    by: SortBy,
    top: FileInfoView,
)
    requires
        forall|i: int| 0 <= i < l.len() ==> in_order(#[trigger] l[i], top, by),
        forall|i: int| 0 <= i < r.len() ==> in_order(#[trigger] r[i], top, by),
    ensures
        forall|i: int| 0 <= i < merged(l, r, by).len() ==> in_order(#[trigger] merged(l, r, by)[i], top, by),
    decreases l.len() + r.len(),
{
    if l.len() == 0 || r.len() == 0 {
    } else if in_order(l.last(), r.last(), by) {
        assert(in_order(r[r.len() - 1], top, by));
        let fewer = r.drop_last();
        assert forall|i: int| 0 <= i < fewer.len() implies in_order(#[trigger] fewer[i], top, by) by {
            assert(in_order(r[i], top, by));
        }
        merged_stays_below(l, fewer, by, top);
        assert forall|i: int| 0 <= i < merged(l, r, by).len() implies in_order(
            #[trigger] merged(l, r, by)[i],
            top,
            by,
        ) by {
            if i < merged(l, fewer, by).len() {
                assert(merged(l, r, by)[i] == merged(l, fewer, by)[i]);
            }
        }
    } else {
        assert(in_order(l[l.len() - 1], top, by));
        let fewer = l.drop_last();
        assert forall|i: int| 0 <= i < fewer.len() implies in_order(#[trigger] fewer[i], top, by) by {
            assert(in_order(l[i], top, by));
        }
        merged_stays_below(fewer, r, by, top);
        assert forall|i: int| 0 <= i < merged(l, r, by).len() implies in_order(
            #[trigger] merged(l, r, by)[i],
            top,
            by,
        ) by {
            if i < merged(fewer, r, by).len() {
                assert(merged(l, r, by)[i] == merged(fewer, r, by)[i]);
            }
        }
    }
}

proof fn merged_is_ordered(l: Seq<FileInfoView>, r: Seq<FileInfoView>, by: SortBy)
    requires
        is_ordered(l, by),
        is_ordered(r, by),
    ensures
        is_ordered(merged(l, r, by), by),
    decreases l.len() + r.len(),
{
    if l.len() == 0 || r.len() == 0 {
        return ;
    }
    ordered_without_last(l, by);
    ordered_without_last(r, by);
    let m = merged(l, r, by);
    let rest = m.drop_last();
    if in_order(l.last(), r.last(), by) {
        assert forall|i: int| 0 <= i < l.len() implies in_order(#[trigger] l[i], r.last(), by) by {
            order_is_transitive(l[i], l.last(), r.last(), by);
        }
        let fewer = r.drop_last();
        assert forall|i: int| 0 <= i < fewer.len() implies in_order(
            #[trigger] fewer[i],
            r.last(),
            by,
        ) by {
            assert(in_order(r[i], r.last(), by));
        }
        merged_is_ordered(l, fewer, by);
        merged_stays_below(l, fewer, by, r.last());
        assert(rest =~= merged(l, fewer, by));
    } else {
        order_is_total(l.last(), r.last(), by);
        assert forall|i: int| 0 <= i < r.len() implies in_order(#[trigger] r[i], l.last(), by) by {
            order_is_transitive(r[i], r.last(), l.last(), by);
        }
        let fewer = l.drop_last();
        assert forall|i: int| 0 <= i < fewer.len() implies in_order(
            #[trigger] fewer[i],
            l.last(),
            by,
        ) by {
            assert(in_order(l[i], l.last(), by));
        }
        merged_is_ordered(fewer, r, by);
        merged_stays_below(fewer, r, by, l.last());
        assert(rest =~= merged(fewer, r, by));
    }
    assert forall|i: int, j: int| 0 <= i < j < m.len() implies #[trigger] in_order(
        m[i],
        m[j],
        by,
    ) by {
        assert(m[i] == rest[i]);
        if j < rest.len() {
            assert(m[j] == rest[j]);
            assert(in_order(rest[i], rest[j], by));
        }
    }
}

proof fn merged_keeps_the_entries(l: Seq<FileInfoView>, r: Seq<FileInfoView>, by: SortBy)
    ensures
        merged(l, r, by).to_multiset() == l.to_multiset().add(r.to_multiset()),
    decreases l.len() + r.len(),
{
    broadcast use vstd::seq_lib::group_to_multiset_ensures;

    if l.len() == 0 {
        assert(l =~= Seq::empty());
        assert(l.to_multiset() =~= vstd::multiset::Multiset::empty());
        assert(merged(l, r, by).to_multiset() =~= l.to_multiset().add(r.to_multiset()));
    } else if r.len() == 0 {
        assert(r =~= Seq::empty());
        assert(r.to_multiset() =~= vstd::multiset::Multiset::empty());
        assert(merged(l, r, by).to_multiset() =~= l.to_multiset().add(r.to_multiset()));
    } else if in_order(l.last(), r.last(), by) {
        merged_keeps_the_entries(l, r.drop_last(), by);
        assert(r =~= r.drop_last().push(r.last()));
        assert(merged(l, r, by).to_multiset() =~= l.to_multiset().add(r.to_multiset()));
    } else {
        merged_keeps_the_entries(l.drop_last(), r, by);
        assert(l =~= l.drop_last().push(l.last()));
        assert(merged(l, r, by).to_multiset() =~= l.to_multiset().add(r.to_multiset()));
    }
}

proof fn none_ranked_like(s: Seq<FileInfoView>, like: FileInfoView, by: SortBy)
    requires
        forall|i: int| 0 <= i < s.len() ==> !rank_alike(#[trigger] s[i], like, by),
    ensures
        ranked_like(s, like, by) =~= Seq::empty(),
    decreases s.len(),
{
    reveal(Seq::filter);
    if s.len() > 0 {
        none_ranked_like(s.drop_last(), like, by);
        assert(!rank_alike(s[s.len() - 1], like, by));
    }
}

proof fn merged_keeps_ranks(
    l: Seq<FileInfoView>,
    r: Seq<FileInfoView>,
    by: SortBy,
    like: FileInfoView,
)
    requires
        is_ordered(l, by),
        is_ordered(r, by),
    ensures
        ranked_like(merged(l, r, by), like, by) == ranked_like(l, like, by) + ranked_like(
            r,
            like,
            by,
        ),
    decreases l.len() + r.len(),
{
    reveal(Seq::filter);
    let m = merged(l, r, by);
    if l.len() == 0 {
        assert(ranked_like(m, like, by) =~= ranked_like(l, like, by) + ranked_like(r, like, by));
    } else if r.len() == 0 {
        assert(ranked_like(m, like, by) =~= ranked_like(l, like, by) + ranked_like(r, like, by));
    } else if in_order(l.last(), r.last(), by) {
        ordered_without_last(r, by);
        merged_keeps_ranks(l, r.drop_last(), by, like);
        assert(m.drop_last() =~= merged(l, r.drop_last(), by));
        assert(ranked_like(m, like, by) =~= ranked_like(l, like, by) + ranked_like(r, like, by));
    } else {
        ordered_without_last(l, by);
        ordered_without_last(r, by);
        merged_keeps_ranks(l.drop_last(), r, by, like);
        assert(m.drop_last() =~= merged(l.drop_last(), r, by));
        if rank_alike(l.last(), like, by) {
            assert forall|i: int| 0 <= i < r.len() implies !rank_alike(#[trigger] r[i], like, by) by {
                if rank_alike(r[i], like, by) {
                    order_is_transitive(l.last(), like, r[i], by);
                    order_is_transitive(l.last(), r[i], r.last(), by);
                }
            }
            none_ranked_like(r, like, by);
        }
        assert(ranked_like(m, like, by) =~= ranked_like(l, like, by) + ranked_like(r, like, by));
    }
}

fn is_in_order(a: &FileInfo, b: &FileInfo, by: SortBy) -> (ordered: bool)
    ensures
        ordered == in_order(a@, b@, by),
{
    match by {
        SortBy::Name => !text_is_before(b.path.as_str(), a.path.as_str()),
        SortBy::Size => a.size <= b.size,
        SortBy::ModifiedTime => a.modified_at <= b.modified_at,
    }
}

fn turned_round(files: Vec<FileInfo>) -> (turned: Vec<FileInfo>)
    ensures
        turned@ == files@.reverse(),
{
    let mut files = files;
    let ghost all = files@;
    let mut turned: Vec<FileInfo> = Vec::new();
    while files.len() > 0
        invariant
            files@.len() + turned@.len() == all.len(),
            files@ == all.take(files@.len() as int),
            turned@ == all.skip(files@.len() as int).reverse(),
        decreases files@.len(),
    {
        let ghost n = files@.len();
        if let Some(file) = files.pop() {
            turned.push(file);
            assert(files@ =~= all.take(n - 1));
            assert(turned@ =~= all.skip(n - 1).reverse());
        }
    }
    assert(all.skip(0) =~= all);
    turned
}

fn merge(left: Vec<FileInfo>, right: Vec<FileInfo>, by: SortBy) -> (files: Vec<FileInfo>)
    ensures
        shown_files(files@) == merged(shown_files(left@), shown_files(right@), by),
{
    let mut left = left;
    let mut right = right;
    let ghost goal = merged(shown_files(left@), shown_files(right@), by);
    let mut tail: Vec<FileInfo> = Vec::new();
    assert(goal =~= merged(shown_files(left@), shown_files(right@), by) + shown_files(
        tail@.reverse(),
    ));
    while left.len() > 0 || right.len() > 0
        invariant
            goal == merged(shown_files(left@), shown_files(right@), by) + shown_files(
                tail@.reverse(),
            ),
        decreases left@.len() + right@.len(),
    {
        let n: usize = left.len();
        let m: usize = right.len();
        let ghost l = shown_files(left@);
        let ghost r = shown_files(right@);
        let ghost done = shown_files(tail@.reverse());
        let from_right = if n == 0 {
            true
        } else if m == 0 {
            false
        } else {
            is_in_order(&left[n - 1], &right[m - 1], by)
        };
        let taken = if from_right {
            right.pop()
        } else {
            left.pop()
        };
        if let Some(file) = taken {
            let ghost last = file@;
            tail.push(file);
            proof {
                assert(shown_files(tail@.reverse()) =~= seq![last] + done);
                if from_right {
                    assert(shown_files(right@) =~= r.drop_last());
                    assert(last == r.last());
                    if l.len() == 0 {
                        assert(merged(l, r.drop_last(), by) =~= r.drop_last());
                    }
                    assert(merged(l, r, by) =~= merged(l, r.drop_last(), by).push(last));
                } else {
                    assert(shown_files(left@) =~= l.drop_last());
                    assert(last == l.last());
                    if r.len() == 0 {
                        assert(merged(l.drop_last(), r, by) =~= l.drop_last());
                    }
                    assert(merged(l, r, by) =~= merged(l.drop_last(), r, by).push(last));
                }
                assert(goal =~= merged(shown_files(left@), shown_files(right@), by)
                    + shown_files(tail@.reverse()));
            }
        }
    }
    assert(merged(shown_files(left@), shown_files(right@), by) =~= Seq::empty());
    assert(goal =~= shown_files(tail@.reverse()));
    turned_round(tail)
}

/// Sorts a listing. Entries that rank alike keep their order.
pub fn sort_files(files: Vec<FileInfo>, sort_by: SortBy) -> (sorted: Vec<FileInfo>)
    ensures
        is_sorting(shown_files(files@), shown_files(sorted@), sort_by),
    decreases files@.len(),
{
    let n: usize = files.len();
    if n <= 1 {
        return files;
    }
    let ghost before = shown_files(files@);
    let mut left = files;
    let right = left.split_off(n / 2);
    let ghost l = shown_files(left@);
    let ghost r = shown_files(right@);
    let left = sort_files(left, sort_by);
    let right = sort_files(right, sort_by);
    let sorted = merge(left, right, sort_by);
    proof {
        assert(before =~= l + r);
        let sl = shown_files(left@);
        let sr = shown_files(right@);
        merged_is_ordered(sl, sr, sort_by);
        merged_keeps_the_entries(sl, sr, sort_by);
        vstd::seq_lib::lemma_multiset_commutative(l, r);
        assert(before.to_multiset() =~= l.to_multiset().add(r.to_multiset()));
        let after = shown_files(sorted@);
        assert forall|like: FileInfoView| #[trigger]
            ranked_like(after, like, sort_by) == ranked_like(before, like, sort_by) by {
            merged_keeps_ranks(sl, sr, sort_by, like);
            assert(ranked_like(sl, like, sort_by) == ranked_like(l, like, sort_by));
            assert(ranked_like(sr, like, sort_by) == ranked_like(r, like, sort_by));
            Seq::filter_distributes_over_add(
                l,
                r,
                |f: FileInfoView| rank_alike(f, like, sort_by),
            );
        }
    }
    sorted
}

/// Whether the name of an entry is wanted in a listing.
pub open spec fn name_is_wanted(options: ListOptions, name: Seq<char>) -> bool {
    &&& options.include_hidden || name.len() == 0 || name[0] != '.'
    &&& match text_of(options.pattern) {
        Some(pattern) => occurs_in(pattern, name),
        None => true,
    }
}

/// Whether the name of an entry is wanted in a listing.
pub fn wants_name(options: &ListOptions, name: &str) -> (wanted: bool)
    ensures
        wanted == name_is_wanted(*options, name@),
{
    if !options.include_hidden && name.unicode_len() > 0 && name.get_char(0) == '.' {
        return false;
    }
    match &options.pattern {
        Some(pattern) => text_contains(name, pattern.as_str()),
        None => true,
    }
}

/// The name that an entry's path ends in, empty where it ends in none.
pub open spec fn entry_name(path: Seq<char>) -> Seq<char> {
    match file_name(path_of(path)) {
        Some(name) => name,
        None => Seq::empty(),
    }
}

/// Whether an entry of a listing that another node has sent is wanted.
pub open spec fn entry_is_wanted(options: ListOptions, entry: FileInfoView) -> bool {
    &&& options.files_only ==> entry.file_type is File
    &&& options.directories_only ==> entry.file_type is Directory
    &&& match text_of(options.pattern) {
        Some(pattern) => occurs_in(pattern, entry_name(entry.path)),
        None => true,
    }
}

/// Whether an entry of a listing that another node has sent is wanted.
pub fn list_filter_match(entry: &FileInfo, options: &ListOptions) -> (wanted: bool)
    ensures
        wanted == entry_is_wanted(*options, entry@),
{
    let is_file = match entry.file_type {
        FileType::File => true,
        _ => false,
    };
    let is_directory = match entry.file_type {
        FileType::Directory => true,
        _ => false,
    };
    if options.files_only && !is_file {
        return false;
    }
    if options.directories_only && !is_directory {
        return false;
    }
    match &options.pattern {
        Some(pattern) => {
            let name = match name_of(&parse(entry.path.as_str())) {
                Some(name) => name,
                None => String::new(),
            };
            assert(name@ =~= entry_name(entry.path@));
            text_contains(name.as_str(), pattern.as_str())
        },
        None => true,
    }
}

/// As much of a listing as is wanted of it: all of it where the limit is zero.
pub open spec fn limited(files: Seq<FileInfoView>, limit: usize) -> Seq<FileInfoView> {
    if limit > 0 && files.len() > limit {
        files.take(limit as int)
    } else {
        files
    }
}

/// Whether a listing is what is shown of certain entries: as much of them as is wanted, sorted.
pub open spec fn is_listing_of(entries: Seq<FileInfoView>, options: ListOptions, shown: Seq<FileInfoView>) -> bool {
    exists|sorted: Seq<FileInfoView>| #[trigger]
        is_sorting(entries, sorted, options.sort_by) && shown == limited(sorted, options.limit)
}

/// What is shown of certain entries.
pub fn finish_listing(entries: Vec<FileInfo>, options: &ListOptions) -> (files: Vec<FileInfo>)
    ensures
        is_listing_of(shown_files(entries@), *options, shown_files(files@)),
{
    let ghost before = shown_files(entries@);
    let mut files = sort_files(entries, options.sort_by);
    let ghost sorted = shown_files(files@);
    assert(is_sorting(before, sorted, options.sort_by));
    if options.limit > 0 && files.len() > options.limit {
        files.truncate(options.limit);
    }
    assert(shown_files(files@) =~= limited(sorted, options.limit));
    files
}

/// The entries of another node's listing that are wanted.
pub fn retain_wanted(files: Vec<FileInfo>, options: &ListOptions) -> (kept: Vec<FileInfo>)
    ensures
        shown_files(kept@) == shown_files(files@).filter(
            |f: FileInfoView| entry_is_wanted(*options, f),
        ),
{
    let ghost wanted = |f: FileInfoView| entry_is_wanted(*options, f);
    let ghost all = shown_files(files@);
    let mut rest = turned_round(files);
    let mut kept: Vec<FileInfo> = Vec::new();
    let ghost mut done: int = 0;
    proof {
        reveal(Seq::filter);
        assert(shown_files(rest@) =~= all.reverse());
        assert(shown_files(kept@) =~= all.take(0).filter(wanted));
    }
    while rest.len() > 0
        invariant
            wanted == (|f: FileInfoView| entry_is_wanted(*options, f)),
            done + rest@.len() == all.len(),
            0 <= done,
            shown_files(rest@) == all.skip(done).reverse(),
            shown_files(kept@) == all.take(done).filter(wanted),
        decreases rest@.len(),
    {
        let ghost before = shown_files(rest@);
        let ghost held = shown_files(kept@);
        if let Some(file) = rest.pop() {
            proof {
                reveal(Seq::filter);
                assert(file@ == before.last());
                assert(before.last() == all[done]);
                assert(all.take(done + 1).drop_last() =~= all.take(done));
                assert(all.take(done + 1).last() == all[done]);
                assert(shown_files(rest@) =~= before.drop_last());
                assert(before.drop_last() =~= all.skip(done + 1).reverse());
            }
            if list_filter_match(&file, options) {
                let ghost shown = file@;
                kept.push(file);
                assert(shown_files(kept@) =~= held.push(shown));
            }
            proof {
                done = done + 1;
            }
        }
    }
    assert(all.take(done) =~= all);
    kept
}

/// There is one way to sort a listing.
pub proof fn sorting_is_determined(
    files: Seq<FileInfoView>,
    a: Seq<FileInfoView>,
    b: Seq<FileInfoView>,
    by: SortBy,
)
    requires
        is_sorting(files, a, by),
        is_sorting(files, b, by),
    ensures
        a == b,
{
    assert forall|like: FileInfoView| #[trigger]
        ranked_like(a, like, by) == ranked_like(b, like, by) by {
        assert(ranked_like(a, like, by) == ranked_like(files, like, by));
        assert(ranked_like(b, like, by) == ranked_like(files, like, by));
    }
    ranks_determine(a, b, by);
}

proof fn ranks_determine(a: Seq<FileInfoView>, b: Seq<FileInfoView>, by: SortBy)
    requires
        is_ordered(a, by),
        is_ordered(b, by),
        forall|like: FileInfoView| #[trigger]
            ranked_like(a, like, by) == ranked_like(b, like, by),
    ensures
        a == b,
    decreases a.len(),
{
    reveal(Seq::filter);
    if a.len() == 0 && b.len() == 0 {
        assert(a =~= b);
    } else if a.len() == 0 {
        order_is_total(b.last(), b.last(), by);
        assert(ranked_like(a, b.last(), by) == ranked_like(b, b.last(), by));
        assert(ranked_like(b, b.last(), by).len() > 0);
    } else if b.len() == 0 {
        order_is_total(a.last(), a.last(), by);
        assert(ranked_like(a, a.last(), by) == ranked_like(b, a.last(), by));
        assert(ranked_like(a, a.last(), by).len() > 0);
    } else {
        let x = a.last();
        let y = b.last();
        ordered_without_last(a, by);
        ordered_without_last(b, by);
        order_is_total(x, x, by);
        order_is_total(y, y, by);
        is_among(b, x, a, by);
        is_among(a, y, b, by);
        assert(rank_alike(y, x, by));
        assert(ranked_like(a, x, by) == ranked_like(b, x, by));
        assert(ranked_like(a, x, by).last() == x);
        assert(ranked_like(b, x, by).last() == y);
        let p = a.drop_last();
        let q = b.drop_last();
        assert forall|like: FileInfoView| #[trigger]
            ranked_like(p, like, by) == ranked_like(q, like, by) by {
            assert(ranked_like(a, like, by) == ranked_like(b, like, by));
            if rank_alike(x, like, by) {
                assert(ranked_like(a, like, by).drop_last() =~= ranked_like(p, like, by));
                assert(ranked_like(b, like, by).drop_last() =~= ranked_like(q, like, by));
            }
        }
        ranks_determine(p, q, by);
        assert(a =~= p.push(x));
        assert(b =~= q.push(y));
    }
}

proof fn is_among(s: Seq<FileInfoView>, x: FileInfoView, other: Seq<FileInfoView>, by: SortBy)
    requires
        other.len() > 0,
        x == other.last(),
        in_order(x, x, by),
        ranked_like(other, x, by) == ranked_like(s, x, by),
        s.len() > 0,
        forall|i: int| 0 <= i < s.len() ==> in_order(#[trigger] s[i], s.last(), by),
    ensures
        in_order(x, s.last(), by),
{
    reveal(Seq::filter);
    let alike = |f: FileInfoView| rank_alike(f, x, by);
    assert(ranked_like(other, x, by).contains(x)) by {
        assert(ranked_like(other, x, by).last() == x);
    }
    s.lemma_filter_contains_rev(alike, x);
    let i = choose|i: int| 0 <= i < s.len() && s[i] == x;
    assert(in_order(s[i], s.last(), by));
}

/// Sorting a sorted listing changes nothing.
pub proof fn sorted_listing_stays(files: Seq<FileInfoView>, again: Seq<FileInfoView>, by: SortBy)
    requires
        is_ordered(files, by),
        is_sorting(files, again, by),
    ensures
        again == files,
{
    assert(is_sorting(files, files, by));
    sorting_is_determined(files, files, again, by);
}

/// A listing with a limit is the beginning of the listing without one.
pub proof fn limit_only_shortens(
    entries: Seq<FileInfoView>,
    options: ListOptions,
    shown: Seq<FileInfoView>,
    sorted: Seq<FileInfoView>,
)
    requires
        is_listing_of(entries, options, shown),
        is_sorting(entries, sorted, options.sort_by),
    ensures
        shown.len() <= sorted.len(),
        shown == sorted.take(shown.len() as int),
        options.limit > 0 ==> shown.len() <= options.limit,
        options.limit == 0 ==> shown == sorted,
{
    let s = choose|s: Seq<FileInfoView>| #[trigger]
        is_sorting(entries, s, options.sort_by) && shown == limited(s, options.limit);
    sorting_is_determined(entries, s, sorted, options.sort_by);
    assert(sorted.take(sorted.len() as int) =~= sorted);
}

/// Entries are listed by what the listing is sorted by, from the least to the greatest: by path,
/// by size, or by when they were changed.
pub proof fn listing_is_sorted_by_what_is_asked(a: FileInfoView, b: FileInfoView)
    ensures
        in_order(a, b, SortBy::Size) <==> a.size <= b.size,
        in_order(a, b, SortBy::ModifiedTime) <==> a.modified_at <= b.modified_at,
        a.path == b.path ==> in_order(a, b, SortBy::Name) && in_order(b, a, SortBy::Name),
        text_before(a.path, b.path) ==> in_order(a, b, SortBy::Name) && !in_order(
            b,
            a,
            SortBy::Name,
        ),
        rank_alike(a, b, SortBy::Name) ==> a.path == b.path,
        rank_alike(a, b, SortBy::Size) <==> a.size == b.size,
        rank_alike(a, b, SortBy::ModifiedTime) <==> a.modified_at == b.modified_at,
{
    text_order_is_total(a.path, b.path);
    text_order_is_total(a.path, a.path);
}

/// A finished listing holds only entries that were found, each as often as it was found at most,
/// in order, and all of them where no limit is set or it is not reached.
pub proof fn listing_holds_what_was_found(
    entries: Seq<FileInfoView>,
    options: ListOptions,
    shown: Seq<FileInfoView>,
    i: int,
    j: int,
)
    requires
        is_listing_of(entries, options, shown),
    ensures
        0 <= i < j < shown.len() && options.sort_by is Size ==> shown[i].size <= shown[j].size,
        0 <= i < j < shown.len() && options.sort_by is ModifiedTime ==> shown[i].modified_at
            <= shown[j].modified_at,
        0 <= i < j < shown.len() && options.sort_by is Name ==> !text_before(
            shown[j].path,
            shown[i].path,
        ),
        0 <= i < shown.len() ==> entries.contains(shown[i]),
        options.limit == 0 || entries.len() <= options.limit ==> shown.len() == entries.len()
            && shown.to_multiset() == entries.to_multiset(),
        options.limit > 0 && entries.len() > options.limit ==> shown.len() == options.limit,
{
    let sorted = choose|sorted: Seq<FileInfoView>| #[trigger]
        is_sorting(entries, sorted, options.sort_by) && shown == limited(sorted, options.limit);
    if 0 <= i < j < shown.len() {
        assert(in_order(sorted[i], sorted[j], options.sort_by));
    }
    sorted.to_multiset_ensures();
    entries.to_multiset_ensures();
    if 0 <= i < shown.len() {
        assert(sorted[i] == shown[i]);
        assert(sorted.contains(shown[i]));
        assert(sorted.to_multiset().count(shown[i]) > 0);
        assert(entries.to_multiset().count(shown[i]) > 0);
    }
}

/// A hidden entry is wanted only where hidden ones are, and where a pattern is given only names
/// that hold it are; nothing else keeps a name out.
pub proof fn names_are_wanted_by_pattern(options: ListOptions, name: Seq<char>)
    ensures
        !options.include_hidden && name.len() > 0 && name[0] == '.' ==> !name_is_wanted(options, name),
        options.pattern is None && (options.include_hidden || name.len() == 0 || name[0] != '.')
            ==> name_is_wanted(options, name),
        options.pattern matches Some(pattern) ==> {
            &&& !occurs_in(pattern@, name) ==> !name_is_wanted(options, name)
            &&& occurs_in(pattern@, name) && (options.include_hidden || name.len() == 0 || name[0]
                != '.') ==> name_is_wanted(options, name)
        },
{
}

/// An entry is kept out only where files or directories alone are wanted and it is none, or where
/// its name does not hold the pattern.
pub proof fn entries_are_wanted_by_kind_and_pattern(options: ListOptions, entry: FileInfoView)
    ensures
        options.files_only && !(entry.file_type is File) ==> !entry_is_wanted(options, entry),
        options.directories_only && !(entry.file_type is Directory) ==> !entry_is_wanted(
            options,
            entry,
        ),
        options.pattern matches Some(pattern) ==> !occurs_in(pattern@, entry_name(entry.path))
            ==> !entry_is_wanted(options, entry),
        (options.files_only ==> entry.file_type is File) && (options.directories_only
            ==> entry.file_type is Directory) && (options.pattern matches Some(pattern) ==> occurs_in(
            pattern@,
            entry_name(entry.path),
        )) ==> entry_is_wanted(options, entry),
{
}

/// What is kept of a list is exactly what is wanted of it, in its order.
pub proof fn wanted_entries_are_kept(
    files: Vec<FileInfo>,
    options: ListOptions,
    kept: Vec<FileInfo>,
    entry: FileInfoView,
)
    requires
        call_ensures(retain_wanted, (files, &options), kept),
    ensures
        shown_files(kept@).contains(entry) <==> shown_files(files@).contains(entry) && entry_is_wanted(
            options,
            entry,
        ),
        shown_files(kept@).len() <= shown_files(files@).len(),
{
    let all = shown_files(files@);
    let wanted = |f: FileInfoView| entry_is_wanted(options, f);
    let rest = all.filter(wanted);
    all.lemma_filter_len(wanted);
    if rest.contains(entry) {
        let i = choose|i: int| 0 <= i < rest.len() && rest[i] == entry;
        all.lemma_filter_contains_rev(wanted, entry);
        all.lemma_filter_pred(wanted, i);
    }
    if all.contains(entry) && entry_is_wanted(options, entry) {
        let i = choose|i: int| 0 <= i < all.len() && all[i] == entry;
        all.lemma_filter_contains(wanted, i);
    }
}

/// A name and an entry are wanted as the options say.
pub proof fn wanted_is_as_the_options_say(
    options: ListOptions,
    name: &str,
    a: bool,
    entry: FileInfo,
    b: bool,
)
    requires
        call_ensures(wants_name, (&options, name), a),
        call_ensures(list_filter_match, (&entry, &options), b),
    ensures
        options.pattern is None ==> (a <==> options.include_hidden || name@.len() == 0 || name@[0]
            != '.'),
        options.pattern matches Some(pattern) ==> a ==> occurs_in(pattern@, name@),
        a <==> name_is_wanted(options, name@),
        b <==> entry_is_wanted(options, entry@),
{
}

} // verus!
