//! What holds of the creation of directories and files, run against the
//! model of the document provider.

use vstd::prelude::*;
use crate::create::{
    advance, after_listing, already_exists, create_dir_at_spec, create_file_at_spec,
    created_document_of, step_spec, CreatedView, CreationView, ProgressView,
};
use crate::dir::{find_named, first_invalid_row, listing_of, names_of, RowView};
use crate::error::ErrorView;
use crate::mime::{guessed_mime, DIR_MIME_TYPE};
use crate::model::{faithful, lists_file_as_named, run, serve, steps_left, Naming, Tree};
use crate::names::{base_name_of, extension_of, lemma_components_are_names, split_path_spec};
use crate::provider::{dir_request, file_request, ReplyView, RequestView};
use crate::uri::{tree_uri_defect, UriView};

verus! {

/// Whether `after` holds all of `before` and, beyond it, only rows with a
/// locator inside the tree, at the end of the listings.
pub open spec fn grown_from(before: Tree, after: Tree) -> bool {
    &&& after.bytes == before.bytes
    &&& forall|u: UriView| #[trigger]
        before.children.contains_key(u) ==> {
            &&& after.children.contains_key(u)
            &&& before.children[u].len() <= after.children[u].len()
        }
    &&& forall|u: UriView, i: int|
        before.children.contains_key(u) && 0 <= i < before.children[u].len()
            ==> #[trigger] after.children[u][i] == before.children[u][i]
    &&& forall|u: UriView, i: int|
        before.children.contains_key(u) && before.children[u].len() <= i
            < after.children[u].len() ==> tree_uri_defect(
            (#[trigger] after.children[u][i]).uri.path_segments,
        ) is None
}

/// Whether every row of a listing has a locator inside the tree.
pub open spec fn rows_valid(rows: Seq<RowView>) -> bool {
    forall|i: int| 0 <= i < rows.len() ==> tree_uri_defect(
        (#[trigger] rows[i]).uri.path_segments,
    ) is None
}

/// A listing is taken as it stands exactly if all its rows are valid.
pub proof fn lemma_listing_valid(rows: Seq<RowView>)
    ensures
        rows_valid(rows) <==> first_invalid_row(rows) is None,
        first_invalid_row(rows) is None ==> listing_of(Ok(rows)) == Ok::<Seq<RowView>, ErrorView>(
            rows,
        ),
        first_invalid_row(rows) is Some ==> listing_of(Ok(rows)) is Err,
    decreases rows.len(),
{
    if rows.len() > 0 {
        let front = rows.drop_last();
        lemma_listing_valid(front);
        if rows_valid(rows) {
            assert forall|i: int| 0 <= i < front.len() implies tree_uri_defect(
                (#[trigger] front[i]).uri.path_segments,
            ) is None by {
                assert(front[i] == rows[i]);
            }
        }
        if first_invalid_row(rows) is None {
            assert forall|i: int| 0 <= i < rows.len() implies tree_uri_defect(
                (#[trigger] rows[i]).uri.path_segments,
            ) is None by {
                if i < front.len() {
                    assert(front[i] == rows[i]);
                }
            }
        }
    }
}

/// The first row of a name stays the first row of that name when rows are
/// added at the end.
pub proof fn lemma_find_in_longer(shorter: Seq<RowView>, longer: Seq<RowView>, name: Seq<char>)
    requires
        shorter.len() <= longer.len(),
        forall|i: int| 0 <= i < shorter.len() ==> longer[i] == shorter[i],
        find_named(shorter, name) is Some,
    ensures
        find_named(longer, name) == find_named(shorter, name),
{
    let short_names = names_of(shorter);
    let long_names = names_of(longer);
    short_names.index_of_first_ensures(name);
    long_names.index_of_first_ensures(name);
    let k = short_names.index_of_first(name).unwrap();
    assert(long_names[k] == name);
    assert(long_names.contains(name));
    let j = long_names.index_of_first(name).unwrap();
    if j < k {
        assert(short_names[j] == name);
    }
    assert(j == k);
}

/// Where no row has the name, a row of that name added right behind them is
/// the first row of the name, whatever follows.
pub proof fn lemma_find_added(shorter: Seq<RowView>, longer: Seq<RowView>, name: Seq<char>)
    requires
        shorter.len() < longer.len(),
        forall|i: int| 0 <= i < shorter.len() ==> longer[i] == shorter[i],
        !names_of(shorter).contains(name),
        longer[shorter.len() as int].file_name() == name,
    ensures
        find_named(longer, name) == Some(longer[shorter.len() as int]),
        names_of(longer).contains(name),
{
    let short_names = names_of(shorter);
    let long_names = names_of(longer);
    long_names.index_of_first_ensures(name);
    let k = shorter.len() as int;
    assert(long_names[k] == name);
    assert(long_names.contains(name));
    let j = long_names.index_of_first(name).unwrap();
    if j < k {
        assert(short_names[j] == name);
        assert(short_names.contains(name));
    }
    assert(j == k);
}

/// Serving a request only adds valid rows at the end of listings.
pub proof fn lemma_serve_grows(tree: Tree, naming: Naming, request: RequestView)
    requires
        faithful(naming),
    ensures
        grown_from(tree, serve(tree, naming, request).0),
{
    let after = serve(tree, naming, request).0;
    match request {
        RequestView::ListChildren { dir } => {},
        RequestView::CreateDocument { parent, mime, display_name } => {
            if tree.children.contains_key(parent) {
                let row = naming(parent, mime, display_name);
                assert(tree_uri_defect(row.uri.path_segments) is None);
                assert forall|u: UriView, i: int|
                    tree.children.contains_key(u) && tree.children[u].len() <= i
                        < after.children[u].len() implies tree_uri_defect(
                    (#[trigger] after.children[u][i]).uri.path_segments,
                ) is None by {
                    assert(u == parent);
                    assert(after.children[u][i] == row);
                }
            }
        },
    }
}

/// Growth goes on: what grew from a tree that grew from another grew from
/// that other.
pub proof fn lemma_grown_transitive(a: Tree, b: Tree, c: Tree)
    requires
        grown_from(a, b),
        grown_from(b, c),
    ensures
        grown_from(a, c),
{
    assert forall|u: UriView, i: int|
        a.children.contains_key(u) && a.children[u].len() <= i
            < c.children[u].len() implies tree_uri_defect(
        (#[trigger] c.children[u][i]).uri.path_segments,
    ) is None by {
        assert(b.children.contains_key(u));
        if i < b.children[u].len() {
            assert(c.children[u][i] == b.children[u][i]);
            assert(tree_uri_defect(b.children[u][i].uri.path_segments) is None);
        }
    }
    assert forall|u: UriView, i: int|
        a.children.contains_key(u) && 0 <= i < a.children[u].len() implies #[trigger] c.children[u][i]
        == a.children[u][i] by {
        assert(b.children.contains_key(u));
        assert(b.children[u][i] == a.children[u][i]);
        assert(c.children[u][i] == b.children[u][i]);
    }
    assert forall|u: UriView| #[trigger] a.children.contains_key(u) implies c.children.contains_key(
        u,
    ) && a.children[u].len() <= c.children[u].len() by {
        assert(b.children.contains_key(u));
    }
}

/// A creation only adds valid rows at the end of listings.
pub proof fn lemma_run_grows(p: ProgressView, tree: Tree, naming: Naming)
    requires
        faithful(naming),
    ensures
        grown_from(tree, run(p, tree, naming).0),
    decreases steps_left(p),
{
    match p {
        ProgressView::Done(_) => {},
        ProgressView::Ask(m, request) => {
            let (next, reply) = serve(tree, naming, request);
            lemma_serve_grows(tree, naming, request);
            lemma_run_grows(step_spec(m, reply), next, naming);
            lemma_grown_transitive(tree, next, run(p, tree, naming).0);
        },
    }
}

/// A listing that was taken as it stood is taken as it stands after growth.
pub proof fn lemma_listing_after_growth(before: Tree, after: Tree, dir: UriView)
    requires
        grown_from(before, after),
        before.children.contains_key(dir),
        listing_of(Ok(before.children[dir])) is Ok,
    ensures
        listing_of(Ok(after.children[dir])) == Ok::<Seq<RowView>, ErrorView>(after.children[dir]),
{
    let old_rows = before.children[dir];
    let new_rows = after.children[dir];
    lemma_listing_valid(old_rows);
    lemma_listing_valid(new_rows);
    assert forall|i: int| 0 <= i < new_rows.len() implies tree_uri_defect(
        (#[trigger] new_rows[i]).uri.path_segments,
    ) is None by {
        if i < old_rows.len() {
            assert(new_rows[i] == old_rows[i]);
            assert(tree_uri_defect(old_rows[i].uri.path_segments) is None);
        }
    }
}

/// The result of a creation run a second time, from the result of the first
/// run: a file that the first run created is in the way of the second.
pub open spec fn result_again(
    first: Result<CreatedView, ErrorView>,
    leaf: Option<Seq<char>>,
) -> Result<CreatedView, ErrorView> {
    match (first, leaf) {
        (Ok(CreatedView::File(_)), Some(file_name)) => Err(
            already_exists("A file named "@ + (file_name + " already exists"@)),
        ),
        _ => first,
    }
}

/// A creation run again on the tree that its first run left changes nothing
/// and ends as the first run did, but for a file that the first run created.
pub proof fn lemma_run_again(
    current: UriView,
    remaining: Seq<Seq<char>>,
    leaf: Option<Seq<char>>,
    tree: Tree,
    naming: Naming,
)
    requires
        faithful(naming),
        forall|i: int| 0 <= i < remaining.len() ==> !(#[trigger] remaining[i]).contains('/'),
        leaf is Some ==> lists_file_as_named(naming, leaf.unwrap()),
    ensures
        ({
            let first = run(advance(current, remaining, leaf), tree, naming);
            let second = run(advance(current, remaining, leaf), first.0, naming);
            &&& second.0 == first.0
            &&& second.1 == result_again(first.1, leaf)
        }),
    decreases remaining.len(),
{
    let start = advance(current, remaining, leaf);
    let first = run(start, tree, naming);
    if remaining.len() == 0 && leaf is None {
        return ;
    }
    let m = CreationView { current, remaining, leaf, creating: false };
    let list = RequestView::ListChildren { dir: current };
    assert(start == ProgressView::Ask(m, list));
    if !tree.children.contains_key(current) {
        let failed = step_spec(m, serve(tree, naming, list).1);
        assert(first == run(failed, tree, naming));
        assert(run(start, tree, naming) == run(failed, tree, naming));
        return ;
    }
    let rows = tree.children[current];
    assert(serve(tree, naming, list) == (tree, ReplyView::Children(Ok(rows))));
    lemma_listing_valid(rows);
    if listing_of(Ok(rows)) is Err {
        let failed = step_spec(m, ReplyView::Children(Ok(rows)));
        assert(first == run(failed, tree, naming));
        return ;
    }
    let listed = after_listing(m, rows);
    assert(step_spec(m, ReplyView::Children(Ok(rows))) == listed);
    assert(first == run(listed, tree, naming));
    lemma_run_grows(listed, tree, naming);
    let end = first.0;
    assert(grown_from(tree, end));
    lemma_listing_after_growth(tree, end, current);
    let end_rows = end.children[current];
    assert(serve(end, naming, list) == (end, ReplyView::Children(Ok(end_rows))));
    let listed_again = after_listing(m, end_rows);
    assert(step_spec(m, ReplyView::Children(Ok(end_rows))) == listed_again);
    assert(run(start, end, naming) == run(listed_again, end, naming));
    if remaining.len() > 0 {
        let name = remaining[0];
        let rest = remaining.skip(1);
        assert forall|i: int| 0 <= i < rest.len() implies !(#[trigger] rest[i]).contains('/') by {
            assert(rest[i] == remaining[i + 1]);
        }
        names_of(rows).index_of_first_ensures(name);
        match find_named(rows, name) {
            Some(entry) => {
                lemma_find_in_longer(rows, end_rows, name);
                if entry.is_dir() {
                    lemma_run_again(entry.uri, rest, leaf, tree, naming);
                } else {
                    assert(end == tree);
                }
            },
            None => {
                let ask = dir_request(current, name);
                let creating = CreationView { creating: true, ..m };
                assert(listed == ProgressView::Ask(creating, ask));
                let row = naming(current, DIR_MIME_TYPE@, name);
                let (made, reply) = serve(tree, naming, ask);
                assert(reply == ReplyView::Created(Ok(Some(row.uri))));
                assert(created_document_of(Ok(Some(row.uri))) == Ok::<UriView, ErrorView>(row.uri));
                let entered = advance(row.uri, rest, leaf);
                assert(step_spec(creating, reply) == entered);
                assert(first == run(entered, made, naming));
                lemma_run_grows(entered, made, naming);
                assert(made.children.contains_key(current));
                assert(made.children[current] == rows.push(row));
                assert(made.children[current].len() <= end_rows.len());
                assert(end_rows[rows.len() as int] == made.children[current][rows.len() as int]);
                assert(row.file_name() == name);
                lemma_find_added(rows, end_rows, name);
                assert(row.is_dir());
                lemma_run_again(row.uri, rest, leaf, made, naming);
            },
        }
    } else {
        let file_name = leaf.unwrap();
        if names_of(rows).contains(file_name) {
            assert(end == tree);
        } else {
            match extension_of(file_name) {
                None => {
                    assert(end == tree);
                },
                Some(ext) => {
                    let ask = file_request(current, file_name, guessed_mime(ext));
                    let creating = CreationView { creating: true, ..m };
                    assert(listed == ProgressView::Ask(creating, ask));
                    let row = naming(current, guessed_mime(ext), base_name_of(file_name));
                    let (made, reply) = serve(tree, naming, ask);
                    assert(reply == ReplyView::Created(Ok(Some(row.uri))));
                    assert(created_document_of(Ok(Some(row.uri))) == Ok::<UriView, ErrorView>(
                        row.uri,
                    ));
                    let done = ProgressView::Done(Ok(CreatedView::File(row.uri)));
                    assert(step_spec(creating, reply) == done);
                    assert(first == run(done, made, naming));
                    assert(end == made);
                    assert(made.children.contains_key(current));
                    assert(made.children[current] == rows.push(row));
                    assert(end_rows.len() == rows.len() + 1);
                    assert(row.file_name() == file_name);
                    lemma_find_added(rows, end_rows, file_name);
                },
            }
        }
    }
}

/// Creating a directory path is idempotent: a second creation of the same
/// path below the same directory leaves the tree as the first creation left
/// it, adds no entry, and ends as the first did; in particular it succeeds
/// where the first succeeded.
pub proof fn law_create_dir_at_idempotent(dir: UriView, path: Seq<char>, tree: Tree, naming: Naming)
    requires
        faithful(naming),
    ensures
        ({
            let first = run(create_dir_at_spec(dir, path), tree, naming);
            let second = run(create_dir_at_spec(dir, path), first.0, naming);
            second == first
        }),
{
    match split_path_spec(path) {
        Err(_) => {},
        Ok(components) => {
            lemma_components_are_names(path);
            lemma_run_again(dir, components, None, tree, naming);
        },
    }
}

/// Creating a file never overwrites one it created before: a second creation
/// of the same path leaves the tree, and with it every file's bytes, as the
/// first creation left it, and where the first succeeded the second fails
/// with `AlreadyExists`.
pub proof fn law_create_file_at_twice(dir: UriView, path: Seq<char>, tree: Tree, naming: Naming)
    requires
        faithful(naming),
        split_path_spec(path) is Ok ==> lists_file_as_named(
            naming,
            split_path_spec(path)->Ok_0.last(),
        ),
    ensures
        ({
            let first = run(create_file_at_spec(dir, path), tree, naming);
            let second = run(create_file_at_spec(dir, path), first.0, naming);
            &&& second.0 == first.0
            &&& first.0.bytes == tree.bytes
            &&& first.1 is Ok ==> second.1 == Err::<CreatedView, ErrorView>(
                already_exists(
                    "A file named "@ + (split_path_spec(path)->Ok_0.last()
                        + " already exists"@),
                ),
            )
            &&& first.1 is Err ==> second.1 == first.1
        }),
{
    match split_path_spec(path) {
        Err(_) => {},
        Ok(components) => {
            lemma_components_are_names(path);
            let dirs = components.drop_last();
            assert forall|i: int| 0 <= i < dirs.len() implies !(#[trigger] dirs[i]).contains(
                '/',
            ) by {
                assert(dirs[i] == components[i]);
            }
            lemma_run_again(dir, dirs, Some(components.last()), tree, naming);
            lemma_run_grows(create_file_at_spec(dir, path), tree, naming);
            lemma_file_creation_ends(dir, dirs, components.last(), tree, naming);
        },
    }
}

/// A creation that ends with a file succeeds only with that file.
pub proof fn lemma_file_creation_ends(
    current: UriView,
    remaining: Seq<Seq<char>>,
    file_name: Seq<char>,
    tree: Tree,
    naming: Naming,
)
    ensures
        ({
            let end = run(advance(current, remaining, Some(file_name)), tree, naming);
            end.1 is Ok ==> end.1->Ok_0 is File
        }),
    decreases remaining.len(),
{
    let leaf = Some(file_name);
    let m = CreationView { current, remaining, leaf, creating: false };
    let list = RequestView::ListChildren { dir: current };
    let (same, reply) = serve(tree, naming, list);
    let listed = step_spec(m, reply);
    assert(run(advance(current, remaining, leaf), tree, naming) == run(listed, tree, naming));
    match listed {
        ProgressView::Done(_) => {},
        ProgressView::Ask(next, ask) => {
            if next.creating {
                let (made, answer) = serve(tree, naming, ask);
                let after = step_spec(next, answer);
                assert(run(listed, tree, naming) == run(after, made, naming));
                match after {
                    ProgressView::Done(_) => {},
                    ProgressView::Ask(_, _) => {
                        let uri = created_document_of(answer->Created_0)->Ok_0;
                        assert(after == advance(uri, remaining.skip(1), leaf));
                        lemma_file_creation_ends(uri, remaining.skip(1), file_name, made, naming);
                    },
                }
            } else {
                let entry = find_named(listing_of(reply->Children_0)->Ok_0, remaining[0]).unwrap();
                assert(listed == advance(entry.uri, remaining.skip(1), leaf));
                lemma_file_creation_ends(entry.uri, remaining.skip(1), file_name, tree, naming);
            }
        },
    }
}

/// The entry that a path of names leads to in a tree, from a directory
/// down through directories that exist.
pub open spec fn entry_at(tree: Tree, dir: UriView, names: Seq<Seq<char>>) -> Option<RowView>
    decreases names.len(),
{
    if names.len() == 0 || !tree.children.contains_key(dir) {
        None
    } else {
        match find_named(tree.children[dir], names[0]) {
            None => None,
            Some(entry) => if names.len() == 1 {
                Some(entry)
            } else if entry.is_dir() {
                entry_at(tree, entry.uri, names.skip(1))
            } else {
                None
            },
        }
    }
}

/// Whether every row of every listing has a locator inside the tree.
pub open spec fn listings_valid(tree: Tree) -> bool {
    forall|u: UriView| #[trigger] tree.children.contains_key(u) ==> rows_valid(tree.children[u])
}

/// Where the names lead to an entry, the creation of a file under them
/// walks down to it, finds the name taken and changes nothing.
proof fn lemma_existing_entry_refused(
    current: UriView,
    names: Seq<Seq<char>>,
    tree: Tree,
    naming: Naming,
)
    requires
        listings_valid(tree),
        entry_at(tree, current, names) is Some,
    ensures
        run(advance(current, names.drop_last(), Some(names.last())), tree, naming) == (
            tree,
            Err::<CreatedView, ErrorView>(
                already_exists("A file named "@ + (names.last() + " already exists"@)),
            ),
        ),
    decreases names.len(),
{
    let remaining = names.drop_last();
    let leaf = Some(names.last());
    let m = CreationView { current, remaining, leaf, creating: false };
    let list = RequestView::ListChildren { dir: current };
    let rows = tree.children[current];
    assert(rows_valid(rows));
    lemma_listing_valid(rows);
    let listed = after_listing(m, rows);
    assert(step_spec(m, serve(tree, naming, list).1) == listed);
    assert(run(advance(current, remaining, leaf), tree, naming) == run(listed, tree, naming));
    names_of(rows).index_of_first_ensures(names[0]);
    if names.len() > 1 {
        let entry = find_named(rows, names[0]).unwrap();
        assert(remaining[0] == names[0]);
        assert(names.skip(1).drop_last() =~= remaining.skip(1));
        assert(names.skip(1).last() == names.last());
        lemma_existing_entry_refused(entry.uri, names.skip(1), tree, naming);
    } else {
        assert(names[0] == names.last());
    }
}

/// Creating a file never overwrites: where an entry already exists at the
/// path, the creation fails with `AlreadyExists` and leaves the tree, and
/// with it the bytes of every file, as it was.
pub proof fn law_create_file_at_keeps_existing(
    dir: UriView,
    path: Seq<char>,
    tree: Tree,
    naming: Naming,
)
    requires
        listings_valid(tree),
        split_path_spec(path) is Ok,
        entry_at(tree, dir, split_path_spec(path)->Ok_0) is Some,
    ensures
        run(create_file_at_spec(dir, path), tree, naming) == (
            tree,
            Err::<CreatedView, ErrorView>(
                already_exists(
                    "A file named "@ + (split_path_spec(path)->Ok_0.last() + " already exists"@),
                ),
            ),
        ),
{
    lemma_existing_entry_refused(dir, split_path_spec(path)->Ok_0, tree, naming);
}

/// Whether no directory lists two entries under one name.
pub open spec fn names_unique(tree: Tree) -> bool {
    forall|u: UriView| #[trigger]
        tree.children.contains_key(u) ==> names_of(tree.children[u]).no_duplicates()
}

/// Whether a creation stands as it does after one of its own steps: it
/// waits for the listing of the directory it has reached, or for a document
/// whose name the listing of its parent lacks.
pub open spec fn in_step(p: ProgressView, tree: Tree, naming: Naming) -> bool {
    match p {
        ProgressView::Done(_) => true,
        ProgressView::Ask(m, request) => {
            &&& forall|i: int| 0 <= i < m.remaining.len() ==> !(#[trigger] m.remaining[i]).contains('/')
            &&& m.leaf is Some ==> lists_file_as_named(naming, m.leaf.unwrap())
            &&& match request {
                RequestView::ListChildren { dir } => !m.creating && dir == m.current,
                RequestView::CreateDocument { parent, mime, display_name } => {
                    &&& m.creating
                    &&& tree.children.contains_key(parent) ==> !names_of(
                        tree.children[parent],
                    ).contains(naming(parent, mime, display_name).file_name())
                },
            }
        },
    }
}

/// A listing with one more row, under a name that it lacks, still lists no
/// name twice.
proof fn lemma_push_keeps_names_unique(rows: Seq<RowView>, row: RowView)
    requires
        names_of(rows).no_duplicates(),
        !names_of(rows).contains(row.file_name()),
    ensures
        names_of(rows.push(row)).no_duplicates(),
{
    let names = names_of(rows);
    let grown = names_of(rows.push(row));
    assert(grown =~= names.push(row.file_name()));
    assert forall|i: int, j: int| 0 <= i < grown.len() && 0 <= j < grown.len() && i != j implies grown[i]
        != grown[j] by {
        if i < names.len() && j < names.len() {
            assert(names[i] != names[j]);
        } else if i < names.len() {
            assert(names.contains(names[i]));
        } else {
            assert(names.contains(names[j]));
        }
    }
}

/// A creation never gives a directory two entries of one name.
pub proof fn lemma_run_keeps_names_unique(p: ProgressView, tree: Tree, naming: Naming)
    requires
        faithful(naming),
        names_unique(tree),
        in_step(p, tree, naming),
    ensures
        names_unique(run(p, tree, naming).0),
    decreases steps_left(p),
{
    match p {
        ProgressView::Done(_) => {},
        ProgressView::Ask(m, request) => {
            let (next, reply) = serve(tree, naming, request);
            let then = step_spec(m, reply);
            match request {
                RequestView::ListChildren { dir } => {
                    if tree.children.contains_key(dir) {
                        let rows = tree.children[dir];
                        lemma_listing_valid(rows);
                        if m.remaining.len() > 0 {
                            names_of(rows).index_of_first_ensures(m.remaining[0]);
                            let rest = m.remaining.skip(1);
                            assert forall|i: int| 0 <= i < rest.len() implies !(#[trigger] rest[i]).contains(
                                '/',
                            ) by {
                                assert(rest[i] == m.remaining[i + 1]);
                            }
                        }
                    }
                    assert(in_step(then, next, naming));
                },
                RequestView::CreateDocument { parent, mime, display_name } => {
                    if tree.children.contains_key(parent) {
                        let row = naming(parent, mime, display_name);
                        lemma_push_keeps_names_unique(tree.children[parent], row);
                        assert forall|u: UriView| #[trigger]
                            next.children.contains_key(u) implies names_of(
                            next.children[u],
                        ).no_duplicates() by {
                            if u == parent {
                            } else if tree.children.contains_key(u) {
                            } else {
                                assert(next.children[u] =~= Seq::<RowView>::empty());
                            }
                        }
                        if m.remaining.len() > 0 {
                            let rest = m.remaining.skip(1);
                            assert forall|i: int| 0 <= i < rest.len() implies !(#[trigger] rest[i]).contains(
                                '/',
                            ) by {
                                assert(rest[i] == m.remaining[i + 1]);
                            }
                        }
                    }
                    assert(in_step(then, next, naming));
                },
            }
            lemma_run_keeps_names_unique(then, next, naming);
        },
    }
}

/// Creating a directory path adds no duplicate entries: in a tree in which
/// no directory lists a name twice, none does afterwards.
pub proof fn law_create_dir_at_keeps_names_unique(
    dir: UriView,
    path: Seq<char>,
    tree: Tree,
    naming: Naming,
)
    requires
        faithful(naming),
        names_unique(tree),
    ensures
        names_unique(run(create_dir_at_spec(dir, path), tree, naming).0),
{
    if split_path_spec(path) is Ok {
        lemma_components_are_names(path);
    }
    lemma_run_keeps_names_unique(create_dir_at_spec(dir, path), tree, naming);
}

/// Creating a file adds no duplicate entries: in a tree in which no
/// directory lists a name twice, none does afterwards.
pub proof fn law_create_file_at_keeps_names_unique(
    dir: UriView,
    path: Seq<char>,
    tree: Tree,
    naming: Naming,
)
    requires
        faithful(naming),
        names_unique(tree),
        split_path_spec(path) is Ok ==> lists_file_as_named(
            naming,
            split_path_spec(path)->Ok_0.last(),
        ),
    ensures
        names_unique(run(create_file_at_spec(dir, path), tree, naming).0),
{
    match split_path_spec(path) {
        Err(_) => {},
        Ok(components) => {
            lemma_components_are_names(path);
            let dirs = components.drop_last();
            assert forall|i: int| 0 <= i < dirs.len() implies !(#[trigger] dirs[i]).contains(
                '/',
            ) by {
                assert(dirs[i] == components[i]);
            }
        },
    }
    lemma_run_keeps_names_unique(create_file_at_spec(dir, path), tree, naming);
}

/// A provider that lists each new document under the document id `/name`.
pub open spec fn plain_naming() -> Naming {
    |parent: UriView, mime: Seq<char>, name: Seq<char>|
        RowView {
            uri: UriView {
                text: Seq::empty(),
                path_segments: seq!["tree"@, "root"@, "document"@, seq!['/'] + name],
            },
            doc_id: seq!['/'] + name,
            mime_type: mime,
            flags: 0,
        }
}

/// There are faithful providers, so what is proved of them is proved of
/// something.
pub proof fn lemma_faithful_naming_exists()
    ensures
        faithful(plain_naming()),
{
    let naming = plain_naming();
    assert forall|parent: UriView, name: Seq<char>| !name.contains('/') implies (#[trigger] naming(
        parent,
        DIR_MIME_TYPE@,
        name,
    )).file_name() == name by {
        let doc_id = seq!['/'] + name;
        doc_id.index_of_last_ensures('/');
        assert(doc_id[0] == '/');
        assert(doc_id.contains('/'));
        let k = doc_id.index_of_last('/').unwrap();
        if k > 0 {
            assert(name[k - 1] == '/');
            assert(name.contains('/'));
        }
        assert(doc_id.skip(1) =~= name);
    }
}

} // verus!
