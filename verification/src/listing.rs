//! Directory snapshots: turning a raw listing into the two panes.
//!
//! The embedding program reads a directory and hands over one `RawEntry`
//! per immediate child: the child's plain name and whether the filesystem
//! classified it as a folder, a regular file, or something else. The
//! functions here keep the entries of one kind, sort their names
//! lexicographically, and join them onto the directory path, producing the
//! ordered pane contents.

use vstd::prelude::*;
use vstd::relations::sorted_by;
use vstd::seq_lib::{lemma_multiset_commutative, lemma_sorted_unique};
use crate::order::{lex_le, lex_leq, lemma_lex_leq_total_ordering, lemma_lex_le_connected,
    lemma_lex_le_transitive, lemma_lex_le_common_prefix, str_lex_le};
use crate::path::{plain_name, join_path, join, is_plain_name};

verus! {

broadcast use vstd::seq_lib::group_to_multiset_ensures;

/// How the filesystem classified a directory child at listing time.
#[derive(Clone, Copy, Debug, PartialEq, Eq, Structural)]
pub enum EntryKind {
    /// A directory (following symbolic links).
    Folder,
    /// A regular file (following symbolic links).
    File,
    /// Anything else: a socket, a device, a dangling link.
    Other,
}

/// One immediate child of a directory, as the listing reported it.
#[derive(Debug)]
pub struct RawEntry {
    /// The child's own name, without any leading directory.
    pub name: String,
    /// The classification at the moment of listing.
    pub kind: EntryKind,
}

/// The mathematical content of a `RawEntry`.
#[verifier::ext_equal]
pub ghost struct EntryView {
    pub name: Seq<char>,
    pub kind: EntryKind,
}

impl View for RawEntry {
    type V = EntryView;

    open spec fn view(&self) -> EntryView {
        EntryView { name: self.name@, kind: self.kind }
    }
}

impl DeepView for RawEntry {
    type V = EntryView;

    open spec fn deep_view(&self) -> EntryView {
        self@
    }
}

/// A directory could not be read: the path and the underlying cause.
#[derive(Debug)]
pub struct IoAccessError {
    /// The directory whose listing failed.
    pub path: String,
    /// What the operating system reported.
    pub cause: String,
}

/// Whether an entry belongs in the pane for kind `k`: it was classified as
/// `k` and carries a usable plain name.
pub open spec fn pane_keeps(e: EntryView, k: EntryKind) -> bool {
    e.kind == k && plain_name(e.name)
}

/// The names of the entries of kind `k`, in listing order.
pub open spec fn names_of_kind(es: Seq<EntryView>, k: EntryKind) -> Seq<Seq<char>>
    decreases es.len(),
{
    if es.len() == 0 {
        Seq::empty()
    } else if pane_keeps(es[0], k) {
        seq![es[0].name] + names_of_kind(es.drop_first(), k)
    } else {
        names_of_kind(es.drop_first(), k)
    }
}

/// Each name joined onto the directory `dir`.
pub open spec fn join_all(dir: Seq<char>, names: Seq<Seq<char>>) -> Seq<Seq<char>> {
    names.map_values(|n: Seq<char>| join_path(dir, n))
}

/// The full pane for kind `k` under directory `dir`: the names of that
/// kind, sorted lexicographically, each joined onto `dir`.
pub open spec fn listed_paths(dir: Seq<char>, es: Seq<EntryView>, k: EntryKind) -> Seq<Seq<char>> {
    join_all(dir, names_of_kind(es, k).sort_by(lex_leq()))
}

/// Every name in `names_of_kind(es, k)` is the plain name of an entry of
/// `es` whose kind is `k`.
pub proof fn lemma_names_of_kind_from_entries(es: Seq<EntryView>, k: EntryKind)
    ensures
        forall|i: int| 0 <= i < names_of_kind(es, k).len() ==> {
            let n = #[trigger] names_of_kind(es, k)[i];
            plain_name(n) && exists|j: int|
                0 <= j < es.len() && es[j].kind == k && es[j].name == n
        },
    decreases es.len(),
{
    if es.len() > 0 {
        lemma_names_of_kind_from_entries(es.drop_first(), k);
        let tail = names_of_kind(es.drop_first(), k);
        assert forall|i: int| 0 <= i < names_of_kind(es, k).len() implies {
            let n = #[trigger] names_of_kind(es, k)[i];
            plain_name(n) && exists|j: int|
                0 <= j < es.len() && es[j].kind == k && es[j].name == n
        } by {
            let n = names_of_kind(es, k)[i];
            if pane_keeps(es[0], k) && i == 0 {
                assert(es[0].kind == k && es[0].name == n);
            } else {
                let i0 = if pane_keeps(es[0], k) { i - 1 } else { i };
                assert(tail[i0] == n);
                let j0 = choose|j0: int|
                    0 <= j0 < es.drop_first().len() && es.drop_first()[j0].kind == k
                        && es.drop_first()[j0].name == tail[i0];
                assert(es[j0 + 1].kind == k && es[j0 + 1].name == n);
            }
        }
    }
}

/// Whether `p` is `dir` joined with the plain name of an entry of `es`
/// that the listing classified as `k`.
pub open spec fn pane_path_from(dir: Seq<char>, es: Seq<EntryView>, k: EntryKind, p: Seq<char>) -> bool {
    exists|n: Seq<char>|
        plain_name(n) && p == join_path(dir, n) && exists|j: int|
            0 <= j < es.len() && es[j].kind == k && #[trigger] es[j].name == n
}

/// A listed pane holds only paths formed from entries of the asked kind.
pub proof fn lemma_listed_paths_from_entries(dir: Seq<char>, es: Seq<EntryView>, k: EntryKind)
    ensures
        forall|i: int| 0 <= i < listed_paths(dir, es, k).len() ==> pane_path_from(
            dir,
            es,
            k,
            #[trigger] listed_paths(dir, es, k)[i],
        ),
{
    let names = names_of_kind(es, k);
    let sorted = names.sort_by(lex_leq());
    lemma_lex_leq_total_ordering();
    names.lemma_sort_by_ensures(lex_leq());
    lemma_names_of_kind_from_entries(es, k);
    assert forall|i: int| 0 <= i < listed_paths(dir, es, k).len() implies pane_path_from(
        dir,
        es,
        k,
        #[trigger] listed_paths(dir, es, k)[i],
    ) by {
        let n = sorted[i];
        assert(sorted.to_multiset().contains(n));
        assert(names.to_multiset().contains(n));
        assert(names.contains(n));
        let i0 = choose|i0: int| 0 <= i0 < names.len() && names[i0] == n;
        assert(plain_name(names[i0]));
        let j0 = choose|j: int| 0 <= j < es.len() && es[j].kind == k && #[trigger] es[j].name
            == names[i0];
        assert(es[j0].name == n);
        assert(listed_paths(dir, es, k)[i] == join_path(dir, n));
    }
}

/// A pane is ordered: the sort policy applied to the names carries over
/// to the joined child paths, since they share the directory as prefix.
pub proof fn lemma_listed_paths_sorted(dir: Seq<char>, es: Seq<EntryView>, k: EntryKind)
    ensures
        sorted_by(listed_paths(dir, es, k), lex_leq()),
{
    let names = names_of_kind(es, k);
    let sorted = names.sort_by(lex_leq());
    let paths = listed_paths(dir, es, k);
    lemma_lex_leq_total_ordering();
    names.lemma_sort_by_ensures(lex_leq());
    let leq = lex_leq();
    assert forall|i: int, j: int| 0 <= i < j < paths.len() implies #[trigger] leq(
        paths[i],
        paths[j],
    ) by {
        assert(leq(sorted[i], sorted[j]));
        assert(join_path(dir, sorted[i]) =~= (dir + seq!['/']) + sorted[i]);
        assert(join_path(dir, sorted[j]) =~= (dir + seq!['/']) + sorted[j]);
        lemma_lex_le_common_prefix(dir + seq!['/'], sorted[i], sorted[j]);
    }
}

/// Collects the names of the entries of kind `k`, in listing order.
fn collect_names(entries: &Vec<RawEntry>, k: EntryKind) -> (r: Vec<String>)
    ensures
        r.deep_view() == names_of_kind(entries.deep_view(), k),
{
    let ghost es = entries.deep_view();
    let mut r: Vec<String> = Vec::new();
    let mut i: usize = 0;
    proof {
        assert(es.skip(0) =~= es);
        assert(r.deep_view() + names_of_kind(es, k) =~= names_of_kind(es, k));
    }
    while i < entries.len()
        invariant
            i <= entries.len(),
            es == entries.deep_view(),
            names_of_kind(es, k) == r.deep_view() + names_of_kind(es.skip(i as int), k),
        decreases entries.len() - i,
    {
        let e = &entries[i];
        proof {
            let tail = es.skip(i as int);
            assert(tail[0] == es[i as int]);
            assert(tail.drop_first() =~= es.skip(i + 1));
        }
        if e.kind == k && is_plain_name(e.name.as_str()) {
            let old_r = Ghost(r.deep_view());
            r.push(e.name.clone());
            proof {
                assert(r.deep_view() =~= old_r@.push(es[i as int].name));
                assert(old_r@.push(es[i as int].name) + names_of_kind(es.skip(i + 1), k) =~= old_r@
                    + names_of_kind(es.skip(i as int), k));
            }
        }
        i += 1;
    }
    proof {
        assert(es.skip(i as int).len() == 0);
        assert(names_of_kind(es.skip(i as int), k) =~= Seq::<Seq<char>>::empty());
        assert(r.deep_view() =~= r.deep_view() + names_of_kind(es.skip(i as int), k));
    }
    r
}

/// Inserts `x` into a lexicographically sorted vector, keeping it sorted.
#[verifier::rlimit(50)]
fn insert_sorted(out: &mut Vec<String>, x: String)
    requires
        sorted_by(old(out).deep_view(), lex_leq()),
    ensures
        sorted_by(final(out).deep_view(), lex_leq()),
        final(out).deep_view().to_multiset() == old(out).deep_view().to_multiset().insert(x@),
{
    let ghost dv0 = out.deep_view();
    let mut j: usize = 0;
    while j < out.len() && str_lex_le(out[j].as_str(), x.as_str())
        invariant
            j <= out.len(),
            dv0 == out.deep_view(),
            forall|m: int| 0 <= m < j ==> lex_le(#[trigger] dv0[m], x@),
        decreases out.len() - j,
    {
        j += 1;
    }
    proof {
        if j < dv0.len() {
            lemma_lex_le_connected(dv0[j as int], x@);
        }
    }
    out.insert(j, x);
    proof {
        let dv1 = out.deep_view();
        assert(dv1 =~= dv0.insert(j as int, x@));
        dv0.insert_ensures(j as int, x@);
        // Order: everything before the slot was at most `x`, everything at
        // or after it at least `x`.
        let leq = lex_leq();
        assert forall|m: int| j <= m < dv0.len() implies lex_le(x@, #[trigger] dv0[m]) by {
            if m > j {
                assert(leq(dv0[j as int], dv0[m]));
                lemma_lex_le_transitive(x@, dv0[j as int], dv0[m]);
            }
        }
        assert forall|m1: int, m2: int| 0 <= m1 < m2 < dv1.len() implies #[trigger] leq(
            dv1[m1],
            dv1[m2],
        ) by {
            if m1 < j && m2 < j {
                assert(leq(dv0[m1], dv0[m2]));
            } else if m1 < j && m2 == j {
                assert(lex_le(dv0[m1], x@));
            } else if m1 < j && m2 > j {
                assert(leq(dv0[m1], dv0[m2 - 1]));
                assert(dv1[m1] == dv0[m1] && dv1[m2] == dv0[m2 - 1]);
            } else if m1 == j {
                assert(lex_le(x@, dv0[m2 - 1]));
            } else {
                assert(leq(dv0[m1 - 1], dv0[m2 - 1]));
                assert(dv1[m1] == dv0[m1 - 1] && dv1[m2] == dv0[m2 - 1]);
            }
        }
        assert(sorted_by(dv1, lex_leq()));
        // Contents: the new sequence holds exactly the old names plus `x`.
        let front = dv0.subrange(0, j as int);
        let back = dv0.subrange(j as int, dv0.len() as int);
        assert(dv1 =~= front.push(x@) + back);
        lemma_multiset_commutative(front.push(x@), back);
        assert(dv0 =~= front + back);
        lemma_multiset_commutative(front, back);
        assert(front.push(x@).to_multiset() =~= front.to_multiset().insert(x@));
        assert(dv1.to_multiset() =~= dv0.to_multiset().insert(x@));
    }
}

/// Sorts names lexicographically; the result is `Seq::sort_by` of the input.
fn sort_names(names: Vec<String>) -> (r: Vec<String>)
    ensures
        r.deep_view() == names.deep_view().sort_by(lex_leq()),
{
    let ghost all = names.deep_view();
    let mut out: Vec<String> = Vec::new();
    let mut i: usize = 0;
    proof {
        assert(all.take(0) =~= Seq::<Seq<char>>::empty());
        assert(out.deep_view() =~= Seq::<Seq<char>>::empty());
        assert(out.deep_view().to_multiset() =~= all.take(0).to_multiset());
    }
    while i < names.len()
        invariant
            i <= names.len(),
            all == names.deep_view(),
            sorted_by(out.deep_view(), lex_leq()),
            out.deep_view().to_multiset() == all.take(i as int).to_multiset(),
        decreases names.len() - i,
    {
        let x = names[i].clone();
        proof {
            assert(x@ == all[i as int]);
        }
        insert_sorted(&mut out, x);
        proof {
            assert(all.take(i + 1) =~= all.take(i as int).push(all[i as int]));
            assert(out.deep_view().to_multiset() =~= all.take(i + 1).to_multiset());
        }
        i += 1;
    }
    proof {
        assert(all.take(i as int) =~= all);
        lemma_lex_leq_total_ordering();
        all.lemma_sort_by_ensures(lex_leq());
        lemma_sorted_unique(out.deep_view(), all.sort_by(lex_leq()), lex_leq());
    }
    out
}

/// Builds one pane: the sorted child paths of kind `k` under `dir`.
fn list_of_kind(dir: &str, entries: &Vec<RawEntry>, k: EntryKind) -> (r: Vec<String>)
    ensures
        r.deep_view() == listed_paths(dir@, entries.deep_view(), k),
{
    let names = collect_names(entries, k);
    let sorted = sort_names(names);
    let ghost s = sorted.deep_view();
    let mut r: Vec<String> = Vec::new();
    let mut i: usize = 0;
    proof {
        assert(r.deep_view() =~= join_all(dir@, s.take(0)));
    }
    while i < sorted.len()
        invariant
            i <= sorted.len(),
            s == sorted.deep_view(),
            r.deep_view() == join_all(dir@, s.take(i as int)),
        decreases sorted.len() - i,
    {
        let p = join(dir, sorted[i].as_str());
        proof {
            assert(s[i as int] == sorted@[i as int]@);
            assert(p@ == join_path(dir@, s[i as int]));
        }
        let old_r = Ghost(r.deep_view());
        r.push(p);
        proof {
            assert(r.deep_view() =~= old_r@.push(p@));
            assert(join_all(dir@, s.take(i + 1)) =~= join_all(dir@, s.take(i as int)).push(
                join_path(dir@, s[i as int]),
            ));
        }
        i += 1;
    }
    proof {
        assert(s.take(i as int) =~= s);
    }
    r
}

/// The folder pane: every immediate child the listing classified as a
/// directory, as a sorted sequence of child paths of `dir`.
pub fn list_folders(dir: &str, entries: &Vec<RawEntry>) -> (r: Vec<String>)
    ensures
        r.deep_view() == listed_paths(dir@, entries.deep_view(), EntryKind::Folder),
{
    list_of_kind(dir, entries, EntryKind::Folder)
}

/// The file pane: every immediate child the listing classified as a
/// regular file, as a sorted sequence of child paths of `dir`.
pub fn list_files(dir: &str, entries: &Vec<RawEntry>) -> (r: Vec<String>)
    ensures
        r.deep_view() == listed_paths(dir@, entries.deep_view(), EntryKind::File),
{
    list_of_kind(dir, entries, EntryKind::File)
}

} // verus!
