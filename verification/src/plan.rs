//! What a run works on: the pinned locations, the entries of a listing that
//! are processed, and their order.

use vstd::prelude::*;
use vstd::utf8::encode_utf8;
use crate::byte_order::{bytes_le, lemma_lex_le_is_byte_order};
use crate::command::K8sCommand;
use crate::text::{lex_le, occurs_at, occurs_in, text_contains, text_le};
use crate::text::{lemma_lex_le_reflexive, lemma_lex_le_total, lemma_lex_le_transitive};
use crate::tree::{entry_views, Tree, TreeDefinition, TreeDefinitionView};

verus! {

/// The repository's interface for listings.
pub const API_HC_REPOSITORY: &'static str =
    "https://api.github.com/repos/Xabaril/AspNetCore.Diagnostics.HealthChecks";

/// Where the repository's files are served as they are.
pub const RAW_HC_REPOSITORY: &'static str =
    "https://raw.githubusercontent.com/Xabaril/AspNetCore.Diagnostics.HealthChecks/master";

/// The custom resource definition, below the repository's root.
pub const OPERATOR_CRD_PATH: &'static str = "deploy/operator/crd/healthcheck-crd.yaml";

/// The directory of definitions, below the repository's root.
pub const OPERATOR_DIRECTORY: &'static str = "deploy/operator";

/// The revision of the directory of definitions that is listed.
pub const OPERATOR_TREE: &'static str = "31bb25e1778dd3af99501ca457d0ef653ea31618";

/// How the program names itself to the repository.
pub const USER_AGENT: &'static str = "Operator Installer Agent";

/// The text that marks a manifest as one never to delete.
pub const PROTECTED_MARK: &'static str = "namespace";

/// The locator of the listing: the interface, then the pinned revision.
pub open spec fn tree_url_text() -> Seq<char> {
    API_HC_REPOSITORY@ + "/git/trees/"@ + OPERATOR_TREE@
}

/// The locator of the custom resource definition.
pub open spec fn crd_url_text() -> Seq<char> {
    RAW_HC_REPOSITORY@ + "/"@ + OPERATOR_CRD_PATH@
}

/// The locator of the definition at `path` below the directory of
/// definitions.
pub open spec fn definition_url_text(path: Seq<char>) -> Seq<char> {
    RAW_HC_REPOSITORY@ + "/"@ + OPERATOR_DIRECTORY@ + "/"@ + path
}

/// A manifest at `url` is left alone in this run: deletion never touches one
/// whose locator holds the protected mark.
pub open spec fn is_skipped(command: K8sCommand, url: Seq<char>) -> bool {
    command == K8sCommand::Delete && occurs_in(url, PROTECTED_MARK@)
}

/// The locator of the listing.
pub fn tree_url() -> (url: String)
    ensures
        url@ == tree_url_text(),
{
    let mut url = String::from_str(API_HC_REPOSITORY);
    url.append("/git/trees/");
    url.append(OPERATOR_TREE);
    url
}

/// The locator of the custom resource definition.
pub fn crd_url() -> (url: String)
    ensures
        url@ == crd_url_text(),
{
    let mut url = String::from_str(RAW_HC_REPOSITORY);
    url.append("/");
    url.append(OPERATOR_CRD_PATH);
    url
}

/// The locator of the definition at `path`.
pub fn definition_url(path: &str) -> (url: String)
    ensures
        url@ == definition_url_text(path@),
{
    let mut url = String::from_str(RAW_HC_REPOSITORY);
    url.append("/");
    url.append(OPERATOR_DIRECTORY);
    url.append("/");
    url.append(path);
    url
}

/// Tells whether the manifest at `url` is left alone in this run.
pub fn skips(command: K8sCommand, url: &str) -> (skipped: bool)
    ensures
        skipped == is_skipped(command, url@),
{
    match command {
        K8sCommand::Apply => false,
        K8sCommand::Delete => text_contains(url, PROTECTED_MARK),
    }
}

/// The files among the entries of a listing, in the listing's order.
pub open spec fn blobs_of(entries: Seq<TreeDefinitionView>) -> Seq<TreeDefinitionView> {
    entries.filter(|entry: TreeDefinitionView| entry.is_blob())
}

/// The files of a listing that has one more entry at its end: that entry
/// is added at the end where it is a file. An empty listing has no files.
pub proof fn lemma_blobs_of_push(entries: Seq<TreeDefinitionView>, entry: TreeDefinitionView)
    ensures
        blobs_of(entries.push(entry)) == if entry.is_blob() {
            blobs_of(entries).push(entry)
        } else {
            blobs_of(entries)
        },
        blobs_of(Seq::empty()) == Seq::<TreeDefinitionView>::empty(),
{
    reveal(Seq::filter);
    assert(entries.push(entry).drop_last() =~= entries);
}

/// Keeps the files of a listing, in the listing's order, and drops every
/// other entry.
pub fn blobs(tree: Tree) -> (files: Vec<TreeDefinition>)
    ensures
        entry_views(files@) == blobs_of(tree@.tree),
{
    let ghost all = tree.tree@;
    let mut files: Vec<TreeDefinition> = Vec::new();
    for entry in it: tree.tree
        invariant
            it.seq() == all,
            entry_views(files@) == blobs_of(entry_views(all.subrange(0, it.index() as int))),
    {
        proof {
            let k = it.index() as int;
            let seen = entry_views(all.subrange(0, k));
            assert(entry_views(all.subrange(0, k + 1)) =~= seen.push(entry@));
            lemma_blobs_of_push(seen, entry@);
        }
        if entry.is_blob() {
            let ghost before = files@;
            files.push(entry);
            assert(entry_views(files@) =~= entry_views(before).push(entry@));
        }
    }
    assert(all.subrange(0, all.len() as int) =~= all);
    files
}

/// The entries stand in ascending order of path.
pub open spec fn ordered_by_path(entries: Seq<TreeDefinitionView>) -> bool {
    forall|i: int, j: int|
        0 <= i < j < entries.len() ==> lex_le(
            #[trigger] entries[i].path,
            #[trigger] entries[j].path,
        )
}

/// Where an entry with `path` goes into `sorted`: behind the last entry whose
/// path is at most `path`, so that entries of one path keep their order.
pub open spec fn insert_position(sorted: Seq<TreeDefinitionView>, path: Seq<char>) -> int
    decreases sorted.len(),
{
    if sorted.len() == 0 {
        0
    } else if lex_le(sorted.last().path, path) {
        sorted.len() as int
    } else {
        insert_position(sorted.drop_last(), path)
    }
}

/// `entries` with `entry` put in at position `at`: what stood there and
/// behind it stands one place further back.
pub open spec fn put_at(
    entries: Seq<TreeDefinitionView>,
    at: int,
    entry: TreeDefinitionView,
) -> Seq<TreeDefinitionView> {
    Seq::new(
        entries.len() + 1,
        |i: int|
            if i < at {
                entries[i]
            } else if i == at {
                entry
            } else {
                entries[i - 1]
            },
    )
}

/// `put_at` is the insertion of sequences.
pub proof fn lemma_put_at_is_insert(
    entries: Seq<TreeDefinitionView>,
    at: int,
    entry: TreeDefinitionView,
)
    requires
        0 <= at <= entries.len(),
    ensures
        put_at(entries, at, entry) == entries.insert(at, entry),
{
    assert(put_at(entries, at, entry) =~= entries.insert(at, entry));
}

/// The entries in ascending order of path; entries of one path stay in the
/// order in which they came.
pub open spec fn path_sorted(entries: Seq<TreeDefinitionView>) -> Seq<TreeDefinitionView>
    decreases entries.len(),
{
    if entries.len() == 0 {
        Seq::empty()
    } else {
        let sorted = path_sorted(entries.drop_last());
        put_at(sorted, insert_position(sorted, entries.last().path), entries.last())
    }
}

/// The order of a sequence that has one more entry at its end: that entry
/// is put into the order of the others, at its position. An empty sequence
/// is in order as it is.
pub proof fn lemma_path_sorted_push(entries: Seq<TreeDefinitionView>, entry: TreeDefinitionView)
    ensures
        path_sorted(entries.push(entry)) == put_at(
            path_sorted(entries),
            insert_position(path_sorted(entries), entry.path),
            entry,
        ),
        path_sorted(Seq::empty()) == Seq::<TreeDefinitionView>::empty(),
{
    assert(entries.push(entry).drop_last() =~= entries);
}

/// `at` is behind every entry of `sorted` that is at most `path` and before
/// every other one.
pub open spec fn is_insert_position(
    sorted: Seq<TreeDefinitionView>,
    path: Seq<char>,
    at: int,
) -> bool {
    &&& 0 <= at <= sorted.len()
    &&& at > 0 ==> lex_le(sorted[at - 1].path, path)
    &&& forall|i: int| at <= i < sorted.len() ==> !lex_le(#[trigger] sorted[i].path, path)
}

/// `insert_position` is the one position with the property above, whether or
/// not `sorted` is in order.
pub proof fn lemma_insert_position(sorted: Seq<TreeDefinitionView>, path: Seq<char>, at: int)
    ensures
        is_insert_position(sorted, path, insert_position(sorted, path)),
        is_insert_position(sorted, path, at) ==> at == insert_position(sorted, path),
    decreases sorted.len(),
{
    if sorted.len() > 0 && !lex_le(sorted.last().path, path) {
        let front = sorted.drop_last();
        lemma_insert_position(front, path, at);
        let found = insert_position(front, path);
        assert forall|i: int| found <= i < sorted.len() implies !lex_le(
            #[trigger] sorted[i].path,
            path,
        ) by {
            if i < front.len() {
                assert(front[i] == sorted[i]);
            }
        }
        if found > 0 {
            assert(front[found - 1] == sorted[found - 1]);
        }
        if is_insert_position(sorted, path, at) {
            assert(at != sorted.len());
            assert forall|i: int| at <= i < front.len() implies !lex_le(
                #[trigger] front[i].path,
                path,
            ) by {
                assert(front[i] == sorted[i]);
            }
            if at > 0 {
                assert(front[at - 1] == sorted[at - 1]);
            }
            assert(is_insert_position(front, path, at));
        }
    } else if sorted.len() > 0 {
        if is_insert_position(sorted, path, at) && at < sorted.len() {
            assert(!lex_le(sorted[sorted.len() - 1].path, path));
        }
    }
}

/// Sorting gives entries in ascending order of path.
pub proof fn lemma_path_sorted_is_ordered(entries: Seq<TreeDefinitionView>)
    ensures
        ordered_by_path(path_sorted(entries)),
    decreases entries.len(),
{
    if entries.len() > 0 {
        let sorted = path_sorted(entries.drop_last());
        let entry = entries.last();
        let at = insert_position(sorted, entry.path);
        let merged = put_at(sorted, at, entry);
        lemma_path_sorted_is_ordered(entries.drop_last());
        lemma_insert_position(sorted, entry.path, at);
        assert forall|i: int, j: int| 0 <= i < j < merged.len() implies lex_le(
            #[trigger] merged[i].path,
            #[trigger] merged[j].path,
        ) by {
            if j < at {
                assert(merged[i] == sorted[i] && merged[j] == sorted[j]);
            } else if j == at {
                assert(merged[i] == sorted[i]);
                if i < at - 1 {
                    lemma_lex_le_transitive(sorted[i].path, sorted[at - 1].path, entry.path);
                }
            } else if i == at {
                assert(merged[j] == sorted[j - 1]);
                lemma_lex_le_total(sorted[j - 1].path, entry.path);
            } else if i < at {
                assert(merged[i] == sorted[i] && merged[j] == sorted[j - 1]);
            } else {
                assert(merged[i] == sorted[i - 1] && merged[j] == sorted[j - 1]);
            }
        }
    }
}

/// Sorting keeps every entry, as often as it occurred, and adds none.
pub proof fn lemma_path_sorted_is_permutation(entries: Seq<TreeDefinitionView>)
    ensures
        path_sorted(entries).to_multiset() == entries.to_multiset(),
        path_sorted(entries).len() == entries.len(),
    decreases entries.len(),
{
    if entries.len() > 0 {
        let front = entries.drop_last();
        let sorted = path_sorted(front);
        let entry = entries.last();
        lemma_path_sorted_is_permutation(front);
        let at = insert_position(sorted, entry.path);
        lemma_insert_position(sorted, entry.path, at);
        lemma_put_at_is_insert(sorted, at, entry);
        vstd::seq_lib::to_multiset_insert(sorted, at, entry);
        assert(entries =~= front.push(entry));
        vstd::seq_lib::to_multiset_build(front, entry);
    } else {
        assert(entries =~= Seq::empty());
    }
}

/// The entries with the given path, in their order.
pub open spec fn with_path(
    entries: Seq<TreeDefinitionView>,
    path: Seq<char>,
) -> Seq<TreeDefinitionView> {
    entries.filter(|entry: TreeDefinitionView| entry.path == path)
}

/// Sorting keeps the entries of one path in the order in which they came.
pub proof fn lemma_path_sorted_is_stable(entries: Seq<TreeDefinitionView>, path: Seq<char>)
    ensures
        with_path(path_sorted(entries), path) == with_path(entries, path),
    decreases entries.len(),
{
    reveal_with_fuel(Seq::filter, 2);
    if entries.len() > 0 {
        let has_path = |entry: TreeDefinitionView| entry.path == path;
        let front = entries.drop_last();
        let entry = entries.last();
        let sorted = path_sorted(front);
        let at = insert_position(sorted, entry.path);
        lemma_path_sorted_is_stable(front, path);
        lemma_insert_position(sorted, entry.path, at);
        let before = sorted.subrange(0, at);
        let behind = sorted.subrange(at, sorted.len() as int);
        assert(sorted =~= before + behind);
        assert(put_at(sorted, at, entry) =~= before + seq![entry] + behind);
        Seq::filter_distributes_over_add(before, behind, has_path);
        Seq::filter_distributes_over_add(before + seq![entry], behind, has_path);
        Seq::filter_distributes_over_add(before, seq![entry], has_path);
        assert(seq![entry].drop_last() =~= Seq::<TreeDefinitionView>::empty());
        if entry.path == path {
            assert forall|i: int| 0 <= i < behind.len() implies !has_path(#[trigger] behind[i]) by {
                assert(behind[i] == sorted[at + i]);
                lemma_lex_le_reflexive(path);
            }
            behind.lemma_all_neg_filter_empty(has_path);
            assert(behind.filter(has_path) =~= Seq::empty());
            assert(seq![entry].filter(has_path) =~= seq![entry]);
            assert(with_path(path_sorted(entries), path) =~= with_path(entries, path));
        } else {
            assert(seq![entry].filter(has_path) =~= Seq::empty());
            assert(with_path(path_sorted(entries), path) =~= with_path(entries, path));
        }
    }
}

/// Puts entries in ascending order of path. Entries of one path keep the
/// order in which they came.
pub fn sort_by_path(entries: Vec<TreeDefinition>) -> (sorted: Vec<TreeDefinition>)
    ensures
        entry_views(sorted@) == path_sorted(entry_views(entries@)),
        ordered_by_path(entry_views(sorted@)),
        entry_views(sorted@).to_multiset() == entry_views(entries@).to_multiset(),
{
    let ghost all = entries@;
    let mut sorted: Vec<TreeDefinition> = Vec::new();
    for entry in it: entries
        invariant
            it.seq() == all,
            entry_views(sorted@) == path_sorted(entry_views(all.subrange(0, it.index() as int))),
    {
        let ghost before = entry_views(sorted@);
        let mut at: usize = sorted.len();
        while at > 0 && !text_le(sorted[at - 1].path.as_str(), entry.path.as_str())
            invariant
                at <= sorted.len(),
                before == entry_views(sorted@),
                forall|i: int|
                    at <= i < before.len() ==> !lex_le(#[trigger] before[i].path, entry@.path),
            decreases at,
        {
            at -= 1;
        }
        proof {
            let k = it.index() as int;
            let seen = entry_views(all.subrange(0, k));
            assert(entry_views(all.subrange(0, k + 1)) =~= seen.push(entry@));
            lemma_path_sorted_push(seen, entry@);
            lemma_insert_position(before, entry@.path, at as int);
        }
        sorted.insert(at, entry);
        assert(entry_views(sorted@) =~= put_at(before, at as int, entry@));
    }
    proof {
        assert(all.subrange(0, all.len() as int) =~= all);
        lemma_path_sorted_is_ordered(entry_views(all));
        lemma_path_sorted_is_permutation(entry_views(all));
    }
    sorted
}

/// The entries whose manifests this run does not leave alone, in their order.
pub open spec fn without_skipped(
    command: K8sCommand,
    entries: Seq<TreeDefinitionView>,
) -> Seq<TreeDefinitionView> {
    entries.filter(
        |entry: TreeDefinitionView| !is_skipped(command, definition_url_text(entry.path)),
    )
}

/// The entries of a listing that a run processes, in the order in which it
/// processes them: the files, in ascending order of path, without those that
/// the run leaves alone.
pub open spec fn planned(
    command: K8sCommand,
    listing: Seq<TreeDefinitionView>,
) -> Seq<TreeDefinitionView> {
    without_skipped(command, path_sorted(blobs_of(listing)))
}

/// What a run does not leave alone of a sequence that has one more entry at
/// its end: that entry is added at the end unless the run leaves it alone.
pub proof fn lemma_without_skipped_push(
    command: K8sCommand,
    entries: Seq<TreeDefinitionView>,
    entry: TreeDefinitionView,
)
    ensures
        without_skipped(command, entries.push(entry)) == if is_skipped(
            command,
            definition_url_text(entry.path),
        ) {
            without_skipped(command, entries)
        } else {
            without_skipped(command, entries).push(entry)
        },
        without_skipped(command, Seq::empty()) == Seq::<TreeDefinitionView>::empty(),
{
    reveal(Seq::filter);
    assert(entries.push(entry).drop_last() =~= entries);
}

/// Drops the entries whose manifests this run leaves alone.
pub fn drop_skipped(command: K8sCommand, entries: Vec<TreeDefinition>) -> (kept: Vec<
    TreeDefinition,
>)
    ensures
        entry_views(kept@) == without_skipped(command, entry_views(entries@)),
{
    let ghost all = entries@;
    let mut kept: Vec<TreeDefinition> = Vec::new();
    for entry in it: entries
        invariant
            it.seq() == all,
            entry_views(kept@) == without_skipped(
                command,
                entry_views(all.subrange(0, it.index() as int)),
            ),
    {
        proof {
            let k = it.index() as int;
            let seen = entry_views(all.subrange(0, k));
            assert(entry_views(all.subrange(0, k + 1)) =~= seen.push(entry@));
            lemma_without_skipped_push(command, seen, entry@);
        }
        let url = definition_url(entry.path.as_str());
        if !skips(command, url.as_str()) {
            let ghost before = kept@;
            kept.push(entry);
            assert(entry_views(kept@) =~= entry_views(before).push(entry@));
        }
    }
    assert(all.subrange(0, all.len() as int) =~= all);
    kept
}

/// The entries of a listing that a run processes, in the order in which it
/// processes them.
pub fn plan(command: K8sCommand, tree: Tree) -> (entries: Vec<TreeDefinition>)
    ensures
        entry_views(entries@) == planned(command, tree@.tree),
{
    drop_skipped(command, sort_by_path(blobs(tree)))
}

/// Filtering keeps entries in ascending order of path.
proof fn lemma_filter_keeps_order(
    entries: Seq<TreeDefinitionView>,
    keep: spec_fn(TreeDefinitionView) -> bool,
)
    requires
        ordered_by_path(entries),
    ensures
        ordered_by_path(entries.filter(keep)),
    decreases entries.len(),
{
    reveal(Seq::filter);
    if entries.len() > 0 {
        let front = entries.drop_last();
        assert forall|i: int, j: int| 0 <= i < j < front.len() implies lex_le(
            #[trigger] front[i].path,
            #[trigger] front[j].path,
        ) by {
            assert(front[i] == entries[i] && front[j] == entries[j]);
        }
        lemma_filter_keeps_order(front, keep);
        let kept = front.filter(keep);
        let all = entries.filter(keep);
        assert forall|i: int, j: int| 0 <= i < j < all.len() implies lex_le(
            #[trigger] all[i].path,
            #[trigger] all[j].path,
        ) by {
            if j < kept.len() {
                assert(all[i] == kept[i] && all[j] == kept[j]);
            } else {
                assert(all[i] == kept[i]);
                assert(kept.contains(kept[i]));
                front.lemma_filter_contains_rev(keep, kept[i]);
                let k = choose|k: int| 0 <= k < front.len() && front[k] == kept[i];
                assert(entries[k] == front[k]);
                assert(lex_le(entries[k].path, entries[entries.len() - 1].path));
            }
        }
    }
}

/// A filter that every entry passes changes nothing.
proof fn lemma_filter_all(
    entries: Seq<TreeDefinitionView>,
    keep: spec_fn(TreeDefinitionView) -> bool,
)
    requires
        forall|i: int| 0 <= i < entries.len() ==> keep(#[trigger] entries[i]),
    ensures
        entries.filter(keep) == entries,
    decreases entries.len(),
{
    reveal(Seq::filter);
    if entries.len() > 0 {
        let front = entries.drop_last();
        assert forall|i: int| 0 <= i < front.len() implies keep(#[trigger] front[i]) by {
            assert(front[i] == entries[i]);
        }
        lemma_filter_all(front, keep);
        assert(keep(entries[entries.len() - 1]));
        assert(entries.filter(keep) =~= entries);
    } else {
        assert(entries.filter(keep) =~= entries);
    }
}

/// A run processes entries in ascending order of path.
pub proof fn lemma_planned_is_ordered(command: K8sCommand, listing: Seq<TreeDefinitionView>)
    ensures
        ordered_by_path(planned(command, listing)),
{
    lemma_path_sorted_is_ordered(blobs_of(listing));
    lemma_filter_keeps_order(
        path_sorted(blobs_of(listing)),
        |entry: TreeDefinitionView| !is_skipped(command, definition_url_text(entry.path)),
    );
}

/// A filter keeps an entry that passes it as often as it occurred, and none
/// that does not.
proof fn lemma_filter_counts(
    entries: Seq<TreeDefinitionView>,
    keep: spec_fn(TreeDefinitionView) -> bool,
    entry: TreeDefinitionView,
)
    ensures
        entries.filter(keep).to_multiset().count(entry) == if keep(entry) {
            entries.to_multiset().count(entry)
        } else {
            0
        },
    decreases entries.len(),
{
    broadcast use vstd::seq_lib::group_to_multiset_ensures;

    reveal(Seq::filter);
    if entries.len() > 0 {
        let front = entries.drop_last();
        let last = entries.last();
        lemma_filter_counts(front, keep, entry);
        assert(entries =~= front.push(last));
        vstd::seq_lib::to_multiset_build(front, last);
        if keep(last) {
            assert(entries.filter(keep) =~= front.filter(keep).push(last));
            vstd::seq_lib::to_multiset_build(front.filter(keep), last);
        }
    } else {
        assert(entries.filter(keep) =~= entries);
        assert(!entries.contains(entry));
    }
}

/// A run processes exactly the files of the listing that it does not leave
/// alone: each of them as often as the listing holds it, and nothing else.
pub proof fn lemma_planned_counts(
    command: K8sCommand,
    listing: Seq<TreeDefinitionView>,
    entry: TreeDefinitionView,
)
    ensures
        planned(command, listing).to_multiset().count(entry) == if entry.is_blob() && !is_skipped(
            command,
            definition_url_text(entry.path),
        ) {
            listing.to_multiset().count(entry)
        } else {
            0
        },
{
    let files = blobs_of(listing);
    lemma_filter_counts(listing, |entry: TreeDefinitionView| entry.is_blob(), entry);
    lemma_path_sorted_is_permutation(files);
    lemma_filter_counts(
        path_sorted(files),
        |entry: TreeDefinitionView| !is_skipped(command, definition_url_text(entry.path)),
        entry,
    );
}

/// A run processes an entry if and only if the listing holds it, it is a
/// file, and the run does not leave its manifest alone.
pub proof fn lemma_planned_entries(
    command: K8sCommand,
    listing: Seq<TreeDefinitionView>,
    entry: TreeDefinitionView,
)
    ensures
        planned(command, listing).contains(entry) <==> listing.contains(entry) && entry.is_blob()
            && !is_skipped(command, definition_url_text(entry.path)),
{
    broadcast use vstd::seq_lib::group_to_multiset_ensures;

    lemma_planned_counts(command, listing, entry);
}

/// Where a run leaves no file of the listing alone, it processes every file
/// of the listing, as often as the listing holds it, and as many manifests as
/// the listing has files.
pub proof fn lemma_nothing_skipped(command: K8sCommand, listing: Seq<TreeDefinitionView>)
    requires
        forall|i: int|
            0 <= i < listing.len() && (#[trigger] listing[i]).is_blob() ==> !is_skipped(
                command,
                definition_url_text(listing[i].path),
            ),
    ensures
        planned(command, listing) == path_sorted(blobs_of(listing)),
        planned(command, listing).to_multiset() == blobs_of(listing).to_multiset(),
        planned(command, listing).len() == blobs_of(listing).len(),
{
    broadcast use vstd::seq_lib::group_to_multiset_ensures;

    let files = blobs_of(listing);
    let sorted = path_sorted(files);
    let is_file = |entry: TreeDefinitionView| entry.is_blob();
    let is_kept = |entry: TreeDefinitionView|
        !is_skipped(command, definition_url_text(entry.path));
    lemma_path_sorted_is_permutation(files);
    assert forall|i: int| 0 <= i < sorted.len() implies is_kept(#[trigger] sorted[i]) by {
        let entry = sorted[i];
        assert(sorted.contains(entry));
        assert(files.to_multiset().count(entry) > 0);
        listing.lemma_filter_contains_rev(is_file, entry);
        lemma_filter_counts(listing, is_file, entry);
        let k = choose|k: int| 0 <= k < listing.len() && listing[k] == entry;
        assert(listing[k].is_blob());
    }
    lemma_filter_all(sorted, is_kept);
}

/// Applying leaves no manifest alone: a run that applies processes every
/// file of the listing, as often as the listing holds it.
pub proof fn lemma_apply_processes_every_file(listing: Seq<TreeDefinitionView>)
    ensures
        planned(K8sCommand::Apply, listing) == path_sorted(blobs_of(listing)),
        planned(K8sCommand::Apply, listing).to_multiset() == blobs_of(listing).to_multiset(),
        planned(K8sCommand::Apply, listing).len() == blobs_of(listing).len(),
{
    lemma_nothing_skipped(K8sCommand::Apply, listing);
}

/// A run processes entries in the order of the UTF-8 bytes of their paths,
/// in which strings compare.
pub proof fn lemma_planned_is_in_byte_order(
    command: K8sCommand,
    listing: Seq<TreeDefinitionView>,
    i: int,
    j: int,
)
    requires
        0 <= i < j < planned(command, listing).len(),
    ensures
        bytes_le(
            encode_utf8(planned(command, listing)[i].path),
            encode_utf8(planned(command, listing)[j].path),
        ),
{
    let entries = planned(command, listing);
    lemma_planned_is_ordered(command, listing);
    assert(lex_le(entries[i].path, entries[j].path));
    lemma_lex_le_is_byte_order(entries[i].path, entries[j].path);
}

/// Deleting never processes a manifest whose locator holds the protected
/// mark.
pub proof fn lemma_delete_spares_protected(listing: Seq<TreeDefinitionView>, i: int)
    requires
        0 <= i < planned(K8sCommand::Delete, listing).len(),
    ensures
        !occurs_in(
            definition_url_text(planned(K8sCommand::Delete, listing)[i].path),
            PROTECTED_MARK@,
        ),
{
    path_sorted(blobs_of(listing)).lemma_filter_pred(
        |entry: TreeDefinitionView|
            !is_skipped(K8sCommand::Delete, definition_url_text(entry.path)),
        i,
    );
}

/// What stands before the path in the locator of a definition.
pub open spec fn definition_url_prefix() -> Seq<char> {
    RAW_HC_REPOSITORY@ + "/"@ + OPERATOR_DIRECTORY@ + "/"@
}

/// Nowhere in the fixed beginning of a locator does an `a` follow an `n`, and
/// the beginning does not end in `n`: the protected mark cannot begin there.
proof fn lemma_prefix_is_free_of_the_mark(at: int)
    requires
        0 <= at < definition_url_prefix().len(),
    ensures
        definition_url_prefix()[at] != 'n' || (at + 1 < definition_url_prefix().len()
            && definition_url_prefix()[at + 1] != 'a'),
{
    reveal_strlit(
        "https://raw.githubusercontent.com/Xabaril/AspNetCore.Diagnostics.HealthChecks/master",
    );
    reveal_strlit("/");
    reveal_strlit("deploy/operator");
}

/// The locator of a definition holds the protected mark exactly when the
/// definition's path holds it.
pub proof fn lemma_mark_is_in_the_path(path: Seq<char>)
    ensures
        occurs_in(definition_url_text(path), PROTECTED_MARK@) <==> occurs_in(
            path,
            PROTECTED_MARK@,
        ),
{
    reveal_strlit("namespace");
    let prefix = definition_url_prefix();
    let url = definition_url_text(path);
    let mark = PROTECTED_MARK@;
    let n = prefix.len() as int;
    assert(url =~= prefix + path);
    if occurs_in(path, mark) {
        let at = choose|at: int| occurs_at(path, mark, at);
        assert(url.subrange(n + at, n + at + mark.len()) =~= path.subrange(at, at + mark.len()));
        assert(occurs_at(url, mark, n + at));
    }
    if occurs_in(url, mark) {
        let at = choose|at: int| occurs_at(url, mark, at);
        let found = url.subrange(at, at + mark.len());
        assert(found[0] == 'n' && found[1] == 'a');
        assert(url[at] == 'n' && url[at + 1] == 'a');
        if at < n {
            lemma_prefix_is_free_of_the_mark(at);
            assert(url[at] == prefix[at]);
            assert(url[at + 1] == prefix[at + 1]);
        }
        assert(path.subrange(at - n, at - n + mark.len()) =~= found);
        assert(occurs_at(path, mark, at - n));
    }
}

/// Deleting leaves a definition alone exactly when its path holds the
/// protected mark.
pub proof fn lemma_delete_skips_by_path(path: Seq<char>)
    ensures
        is_skipped(K8sCommand::Delete, definition_url_text(path)) <==> occurs_in(
            path,
            PROTECTED_MARK@,
        ),
{
    lemma_mark_is_in_the_path(path);
}

/// A run that deletes processes an entry if and only if the listing holds
/// it, it is a file, and its path does not hold the protected mark.
pub proof fn lemma_delete_processes_by_path(
    listing: Seq<TreeDefinitionView>,
    entry: TreeDefinitionView,
)
    ensures
        planned(K8sCommand::Delete, listing).contains(entry) <==> listing.contains(entry)
            && entry.is_blob() && !occurs_in(entry.path, PROTECTED_MARK@),
{
    lemma_planned_entries(K8sCommand::Delete, listing, entry);
    lemma_delete_skips_by_path(entry.path);
}

/// The paths of entries, in their order.
pub open spec fn paths(entries: Seq<TreeDefinitionView>) -> Seq<Seq<char>> {
    entries.map_values(|entry: TreeDefinitionView| entry.path)
}

/// The locators of the definitions of entries, in their order.
pub open spec fn locators(entries: Seq<TreeDefinitionView>) -> Seq<Seq<char>> {
    entries.map_values(|entry: TreeDefinitionView| definition_url_text(entry.path))
}

/// Two sequences that hold the same entries, each as often, hold the same
/// texts of them, each as often, whatever text is taken of an entry.
proof fn lemma_same_entries_same_texts(
    a: Seq<TreeDefinitionView>,
    b: Seq<TreeDefinitionView>,
    text: spec_fn(TreeDefinitionView) -> Seq<char>,
)
    requires
        a.to_multiset() == b.to_multiset(),
    ensures
        a.map_values(text).to_multiset() == b.map_values(text).to_multiset(),
        a.len() == b.len(),
    decreases a.len(),
{
    broadcast use vstd::seq_lib::group_to_multiset_ensures;

    assert(a.to_multiset().len() == a.len() && b.to_multiset().len() == b.len());
    if a.len() == 0 {
        assert(a.map_values(text) =~= b.map_values(text));
    } else {
        let last = a.last();
        let front = a.drop_last();
        assert(a =~= front.push(last));
        assert(b.to_multiset().count(last) > 0);
        let k = choose|k: int| 0 <= k < b.len() && b[k] == last;
        let others = b.remove(k);
        assert(front.to_multiset() =~= a.to_multiset().remove(last)) by {
            assert(front =~= a.remove(a.len() - 1));
        }
        assert(others.to_multiset() =~= b.to_multiset().remove(last));
        lemma_same_entries_same_texts(front, others, text);
        assert(a.map_values(text) =~= front.map_values(text).push(text(last)));
        assert(b.map_values(text) =~= others.map_values(text).insert(k, text(last)));
        vstd::seq_lib::to_multiset_insert(others.map_values(text), k, text(last));
    }
}

/// A run processes the files of the listing that it does not leave alone,
/// each as often as the listing holds it: the entries, their paths and their
/// locators are those of these files, in another order.
pub proof fn lemma_planned_is_permutation(command: K8sCommand, listing: Seq<TreeDefinitionView>)
    ensures
        ({
            let kept = without_skipped(command, blobs_of(listing));
            let entries = planned(command, listing);
            &&& entries.to_multiset() == kept.to_multiset()
            &&& entries.len() == kept.len()
            &&& paths(entries).to_multiset() == paths(kept).to_multiset()
            &&& locators(entries).to_multiset() == locators(kept).to_multiset()
        }),
{
    let kept = without_skipped(command, blobs_of(listing));
    let entries = planned(command, listing);
    let is_kept = |entry: TreeDefinitionView|
        !is_skipped(command, definition_url_text(entry.path));
    assert forall|entry: TreeDefinitionView|
        entries.to_multiset().count(entry) == kept.to_multiset().count(entry) by {
        lemma_planned_counts(command, listing, entry);
        lemma_filter_counts(listing, |entry: TreeDefinitionView| entry.is_blob(), entry);
        lemma_filter_counts(blobs_of(listing), is_kept, entry);
    }
    assert(entries.to_multiset() =~= kept.to_multiset());
    lemma_same_entries_same_texts(entries, kept, |entry: TreeDefinitionView| entry.path);
    lemma_same_entries_same_texts(
        entries,
        kept,
        |entry: TreeDefinitionView| definition_url_text(entry.path),
    );
}

} // verus!
