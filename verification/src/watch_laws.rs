//! What following the changes of a workspace promises.
use crate::lines::{ends_with, join, starts_with};
use crate::path_laws::lemma_split_entry;
use crate::paths::{
    climbs, component_text, components, components_below, is_absolute, joined, last_name,
    leading_component, piece_component, piece_components, relative_text, ComponentView,
};
use crate::text::split_all;
use crate::watch::{
    changed_path, changed_paths, enqueued, event_change, is_ignored, received, resource_of,
    ChangeView, FileEventView, QueueView, SignalView, WatchErrorView,
};
use vstd::prelude::*;

verus! {

/// Whether a text can be the name of a file or a directory.
pub open spec fn plain_name(name: Seq<char>) -> bool {
    name.len() > 0 && !name.contains('/') && name != seq!['.'] && name != seq!['.', '.']
}

/// The path of something below a root, by the names on the way there.
pub open spec fn path_to(root: Seq<char>, names: Seq<Seq<char>>) -> Seq<char> {
    root + seq!['/'] + join(names, seq!['/'])
}

/// Whether names lead from a root to something.
pub open spec fn leads_below(root: Seq<char>, names: Seq<Seq<char>>) -> bool {
    &&& is_absolute(root)
    &&& names.len() > 0
    &&& forall|i: int| 0 <= i < names.len() ==> plain_name(#[trigger] names[i])
}

/// Whether a name is one that editors and the system give to files of their own.
pub open spec fn passing_name(name: Seq<char>) -> bool {
    ||| name == ".DS_Store"@
    ||| starts_with(name, ".#"@)
    ||| starts_with(name, "#"@) && ends_with(name, "#"@)
    ||| ends_with(name, "~"@)
    ||| ends_with(name, ".swp"@)
    ||| ends_with(name, ".swo"@)
    ||| ends_with(name, ".swx"@)
    ||| ends_with(name, ".tmp"@)
}

/// Whether what names lead to is of concern: it does not lie in a directory that is kept for
/// history or for the program itself, and is no passing file.
pub open spec fn of_concern(names: Seq<Seq<char>>) -> bool {
    &&& !names.contains(".git"@)
    &&& !names.contains(".apex"@)
    &&& !passing_name(names.last())
}

proof fn lemma_pieces_below(root: Seq<char>, names: Seq<Seq<char>>)
    requires
        leads_below(root, names),
    ensures
        split_all(path_to(root, names), '/') == split_all(root, '/') + names,
    decreases names.len(),
{
    let last = names.last();
    assert(plain_name(names[names.len() - 1]));
    if names.len() == 1 {
        assert(join(names, seq!['/']) == last);
        lemma_split_entry(root, last);
        assert(split_all(root, '/') + names =~= split_all(root, '/').push(last));
    } else {
        let front = names.drop_last();
        assert forall|i: int| 0 <= i < front.len() implies plain_name(#[trigger] front[i]) by {
            assert(front[i] == names[i]);
        }
        lemma_pieces_below(root, front);
        let above = path_to(root, front);
        assert(path_to(root, names) =~= above + seq!['/'] + last);
        lemma_split_entry(above, last);
        assert(split_all(root, '/') + names =~= (split_all(root, '/') + front).push(last));
    }
}

proof fn lemma_components_below(pieces: Seq<Seq<char>>, names: Seq<Seq<char>>)
    requires
        forall|i: int| 0 <= i < names.len() ==> plain_name(#[trigger] names[i]),
    ensures
        piece_components(pieces + names) == piece_components(pieces) + names.map_values(
            |n: Seq<char>| ComponentView::Normal(n),
        ),
    decreases names.len(),
{
    let kinds = names.map_values(|n: Seq<char>| ComponentView::Normal(n));
    if names.len() == 0 {
        assert(pieces + names =~= pieces);
        assert(piece_components(pieces) + kinds =~= piece_components(pieces));
    } else {
        let front = names.drop_last();
        assert forall|i: int| 0 <= i < front.len() implies plain_name(#[trigger] front[i]) by {
            assert(front[i] == names[i]);
        }
        lemma_components_below(pieces, front);
        assert((pieces + names).drop_last() =~= pieces + front);
        assert((pieces + names).last() == names.last());
        assert(plain_name(names[names.len() - 1]));
        assert(piece_component(names.last()) == Some(ComponentView::Normal(names.last())));
        assert(kinds =~= front.map_values(|n: Seq<char>| ComponentView::Normal(n)).push(
            ComponentView::Normal(names.last()),
        ));
        assert(piece_components(pieces) + kinds =~= (piece_components(pieces)
            + front.map_values(|n: Seq<char>| ComponentView::Normal(n))).push(
            ComponentView::Normal(names.last()),
        ));
    }
}

/// What lies below a root by some names is what those names say.
proof fn lemma_below(root: Seq<char>, names: Seq<Seq<char>>)
    requires
        leads_below(root, names),
    ensures
        ({
            let kinds = names.map_values(|n: Seq<char>| ComponentView::Normal(n));
            let path = path_to(root, names);
            &&& components_below(root, joined(root, path)) == Some(kinds)
            &&& relative_text(kinds) == join(names, seq!['/'])
            &&& !climbs(kinds)
            &&& kinds.len() == names.len()
            &&& last_name(kinds) == Some(names.last())
            &&& is_ignored(kinds) <==> !of_concern(names)
        }),
{
    let kinds = names.map_values(|n: Seq<char>| ComponentView::Normal(n));
    let path = path_to(root, names);
    assert(path[0] == root[0]);
    assert(joined(root, path) == path);
    lemma_pieces_below(root, names);
    lemma_components_below(split_all(root, '/'), names);
    assert(leading_component(path) == leading_component(root));
    let all = components(path);
    let first = components(root);
    assert(all =~= first + kinds);
    assert(all.take(first.len() as int) =~= first);
    assert(all.skip(first.len() as int) =~= kinds);
    assert(kinds.map_values(|c: ComponentView| component_text(c)) =~= names);
    assert forall|i: int| 0 <= i < kinds.len() implies !((#[trigger] kinds[i]) is Root
        || kinds[i] is Parent) by {}
    assert(kinds.last() == ComponentView::Normal(names.last()));
    if names.contains(".git"@) {
        let i = choose|i: int| 0 <= i < names.len() && names[i] == ".git"@;
        assert(kinds[i] == ComponentView::Normal(".git"@));
    }
    if names.contains(".apex"@) {
        let i = choose|i: int| 0 <= i < names.len() && names[i] == ".apex"@;
        assert(kinds[i] == ComponentView::Normal(".apex"@));
    }
    if is_ignored(kinds) && !passing_name(names.last()) {
        let i = choose|i: int|
            0 <= i < kinds.len() && ((#[trigger] kinds[i]) matches ComponentView::Normal(name)
                && crate::watch::is_private_directory(name));
        assert(names.contains(names[i]));
    }
}

proof fn lemma_path_is_among(root: Seq<char>, paths: Seq<Seq<char>>, k: int)
    requires
        0 <= k < paths.len(),
        changed_path(root, paths[k]) is Some,
    ensures
        changed_paths(root, paths).contains(changed_path(root, paths[k])->Some_0),
    decreases paths.len(),
{
    let all = changed_paths(root, paths);
    let found = changed_path(root, paths[k])->Some_0;
    if k == paths.len() - 1 {
        assert(all.last() == found);
        assert(all[all.len() - 1] == found);
    } else {
        let shorter = paths.drop_last();
        assert(shorter[k] == paths[k]);
        lemma_path_is_among(root, shorter, k);
        let front = changed_paths(root, shorter);
        let i = choose|i: int| 0 <= i < front.len() && front[i] == found;
        assert(all[i] == found);
    }
}

proof fn lemma_nothing_is_among(root: Seq<char>, paths: Seq<Seq<char>>)
    requires
        forall|k: int| 0 <= k < paths.len() ==> changed_path(root, #[trigger] paths[k]) is None,
    ensures
        changed_paths(root, paths).len() == 0,
    decreases paths.len(),
{
    if paths.len() > 0 {
        let shorter = paths.drop_last();
        assert forall|k: int| 0 <= k < shorter.len() implies changed_path(
            root,
            #[trigger] shorter[k],
        ) is None by {
            assert(shorter[k] == paths[k]);
        }
        lemma_nothing_is_among(root, shorter);
        assert(changed_path(root, paths[paths.len() - 1]) is None);
    }
}

/// A change is told for what it is: what was removed is reported as removed and nothing else
/// is, what was created as created, what was given another name as renamed, and what was
/// written, or cannot be told, as modified. That all has to be read again is reported exactly
/// where events were missed.
pub proof fn law_changes_are_told_for_what_they_are(root: Seq<char>, event: FileEventView)
    ensures
        event_change(root, event) matches Some(c) ==> {
            &&& (c.kind is RescanRequired) <==> event.need_rescan
            &&& (c.kind is Removed) <==> (event.kind is Remove && !event.need_rescan)
            &&& (c.kind is Created) <==> (event.kind is Create && !event.need_rescan)
            &&& (c.kind is Renamed) <==> (event.kind is Rename && !event.need_rescan)
            &&& (c.kind is Modified) <==> ((event.kind is Modify || event.kind is Unclear)
                && !event.need_rescan)
            &&& event.need_rescan ==> c.paths.len() == 0
            &&& !event.need_rescan ==> c.paths.len() > 0
        },
        event.need_rescan ==> event_change(root, event) is Some,
        event.kind is Access && !event.need_rescan ==> event_change(root, event) is None,
{
}

/// An event of something of concern below the root is reported, with the path below the root;
/// only reading it is not.
pub proof fn law_events_of_concern_are_reported(
    root: Seq<char>,
    event: FileEventView,
    names: Seq<Seq<char>>,
    k: int,
)
    requires
        leads_below(root, names),
        of_concern(names),
        0 <= k < event.paths.len(),
        event.paths[k] == path_to(root, names),
        !(event.kind is Access),
        !event.need_rescan,
    ensures
        event_change(root, event) matches Some(c) && exists|i: int|
            0 <= i < c.paths.len() && (#[trigger] c.paths[i]).relative_path == join(
                names,
                seq!['/'],
            ) && c.paths[i].resource == resource_of(
                names.map_values(|n: Seq<char>| ComponentView::Normal(n)),
            ),
{
    lemma_below(root, names);
    lemma_path_is_among(root, event.paths, k);
    let all = changed_paths(root, event.paths);
    let found = changed_path(root, event.paths[k])->Some_0;
    let i = choose|i: int| 0 <= i < all.len() && all[i] == found;
    assert(event_change(root, event)->Some_0.paths[i] == found);
}

/// An event that names nothing of concern is not reported.
pub proof fn law_events_of_no_concern_are_passed_over(
    root: Seq<char>,
    event: FileEventView,
    names: Seq<Seq<Seq<char>>>,
)
    requires
        !event.need_rescan,
        names.len() == event.paths.len(),
        forall|k: int|
            0 <= k < names.len() ==> leads_below(root, #[trigger] names[k]) && !of_concern(
                names[k],
            ) && event.paths[k] == path_to(root, names[k]),
    ensures
        event_change(root, event) is None,
{
    assert forall|k: int| 0 <= k < event.paths.len() implies changed_path(
        root,
        #[trigger] event.paths[k],
    ) is None by {
        assert(leads_below(root, names[k]));
        lemma_below(root, names[k]);
    }
    lemma_nothing_is_among(root, event.paths);
}

/// What a path of a workspace stands for follows from where it lies and from its name.
pub proof fn law_places_tell_what_lies_there(names: Seq<Seq<char>>)
    requires
        names.len() > 0,
    ensures
        ({
            let found = resource_of(names.map_values(|n: Seq<char>| ComponentView::Normal(n)));
            let first = names[0];
            let last = names.last();
            &&& (found is Manifest) <==> names == seq!["apex.toml"@]
            &&& (found is Variables) <==> names == seq!["variables.toml"@]
            &&& (found is Environment) <==> first == "environments"@
            &&& (found is Request) <==> first == "collections"@ && ends_with(
                last,
                ".request.toml"@,
            )
            &&& (found is Collection) <==> first == "collections"@ && !ends_with(
                last,
                ".request.toml"@,
            )
            &&& (found is Schema) <==> first == "schemas"@
            &&& (found is Grpc) <==> first == "grpc"@
            &&& (found is Mock) <==> first == "mocks"@
            &&& (found is Profile) <==> first == "profiles"@
        }),
{
    let kinds = names.map_values(|n: Seq<char>| ComponentView::Normal(n));
    reveal_strlit("apex.toml");
    reveal_strlit("variables.toml");
    reveal_strlit("environments");
    reveal_strlit("collections");
    reveal_strlit("schemas");
    reveal_strlit("grpc");
    reveal_strlit("mocks");
    reveal_strlit("profiles");
    assert("apex.toml"@.len() == 9 && "variables.toml"@.len() == 14);
    assert("environments"@.len() == 12 && "collections"@.len() == 11);
    assert("schemas"@.len() == 7 && "grpc"@.len() == 4);
    assert("mocks"@.len() == 5 && "profiles"@.len() == 8);
    assert(kinds[0] == ComponentView::Normal(names[0]));
    assert(kinds.last() == ComponentView::Normal(names.last()));
    let manifest = seq!["apex.toml"@];
    let variables = seq!["variables.toml"@];
    assert(manifest[0] == "apex.toml"@ && variables[0] == "variables.toml"@);
    let a = seq![ComponentView::Normal("apex.toml"@)];
    let b = seq![ComponentView::Normal("variables.toml"@)];
    assert(a[0] == ComponentView::Normal("apex.toml"@));
    assert(b[0] == ComponentView::Normal("variables.toml"@));
    if names == manifest {
        assert(kinds =~= a);
    }
    if kinds == a {
        assert(names =~= manifest);
    }
    if names == variables {
        assert(kinds =~= b);
    }
    if kinds == b {
        assert(names =~= variables);
    }
}

/// What comes first is read first: a signal that comes later changes nothing about what is
/// read before it, and waits behind what waited already.
pub proof fn law_first_come_first_read(queue: QueueView, signal: SignalView, root: Seq<char>)
    requires
        queue.signals.len() < queue.capacity,
        !queue.overflowed,
        received(queue, root).0 matches Ok(Some(_)) || received(queue, root).0 matches Err(
            WatchErrorView::Backend(_),
        ),
    ensures
        received(enqueued(queue, signal), root).0 == received(queue, root).0,
        received(enqueued(queue, signal), root).1 == enqueued(received(queue, root).1, signal),
    decreases queue.signals.len(),
{
    let more = enqueued(queue, signal);
    assert(queue.signals.len() > 0);
    let rest = QueueView { signals: queue.signals.skip(1), ..queue };
    assert(more.signals[0] == queue.signals[0]);
    assert(more.signals.skip(1) =~= rest.signals.push(signal));
    if let SignalView::Event(event) = queue.signals[0] {
        if event_change(root, event) is None {
            law_first_come_first_read(rest, signal, root);
        }
    }
}

/// Where nothing waits, what comes is what is read next: the change that an event stands for,
/// or the failure of the watcher.
pub proof fn law_what_comes_is_read(queue: QueueView, signal: SignalView, root: Seq<char>)
    requires
        queue.signals.len() == 0,
        queue.capacity > 0,
        !queue.overflowed,
    ensures
        match signal {
            SignalView::Failed(reason) => received(enqueued(queue, signal), root) == (
                Err::<Option<ChangeView>, WatchErrorView>(WatchErrorView::Backend(reason)),
                queue,
            ),
            SignalView::Event(event) => event_change(root, event) matches Some(change) ==> received(
                enqueued(queue, signal),
                root,
            ) == (Ok::<Option<ChangeView>, WatchErrorView>(Some(change)), queue),
        },
{
    let more = enqueued(queue, signal);
    assert(more.signals.skip(1) =~= queue.signals);
    assert(more.signals[0] == signal);
}

} // verus!
