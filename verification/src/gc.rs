//! The lifecycle garbage collector: which exited containers, images,
//! volumes and deploy artifacts a cycle removes.
//!
//! Each pass takes what the host lists and answers with the names to
//! remove, in listing order. Removing them is the caller's part; a
//! removal that fails is reported by the caller and the pass goes on.

use vstd::prelude::*;
use vstd::hash_set::StringHashSet;
use crate::eviction::{elapsed_or_zero, elapsed_seconds};
use crate::records::{retention_seconds, ContainerRecord, DeployArtifact, ImageRecord};
use crate::text::{begins_with, starts_with, views};
use crate::whitelist::{string_set, strings_of, Whitelist, WhitelistView};

verus! {

/// The names of the items that are due, in the order of the listing.
pub open spec fn selected<T>(
    items: Seq<T>,
    due: spec_fn(T) -> bool,
    name: spec_fn(T) -> Seq<char>,
) -> Seq<Seq<char>>
    decreases items.len(),
{
    if items.len() == 0 {
        Seq::empty()
    } else {
        let before = selected(items.drop_last(), due, name);
        if due(items.last()) {
            before.push(name(items.last()))
        } else {
            before
        }
    }
}

/// The items that are not due, in the order of the listing: what is
/// left of it once every selected item is gone.
pub open spec fn remaining<T>(items: Seq<T>, due: spec_fn(T) -> bool) -> Seq<T>
    decreases items.len(),
{
    if items.len() == 0 {
        Seq::empty()
    } else {
        let before = remaining(items.drop_last(), due);
        if due(items.last()) {
            before
        } else {
            before.push(items.last())
        }
    }
}

/// An exited container with the seconds since it exited.
#[derive(Clone, Debug, PartialEq, Eq)]
pub struct ComplexContainer {
    pub container: ContainerRecord,
    pub exist_duration: u64,
}

/// Whether an exited container has been gone for the retention time or
/// longer. The whitelist has no say here.
pub open spec fn container_due(days: u64) -> spec_fn(ComplexContainer) -> bool {
    |c: ComplexContainer| c.exist_duration as nat >= retention_seconds(days)
}

/// The id of an exited container.
pub open spec fn container_name() -> spec_fn(ComplexContainer) -> Seq<char> {
    |c: ComplexContainer| c.container.id@
}

/// Whether an image is to be deleted: it is not on the whitelist and
/// was not created after `now` less the retention time.
pub open spec fn image_due(w: WhitelistView, now: u64, days: u64) -> spec_fn(ImageRecord) -> bool {
    |img: ImageRecord|
        !w.protects_image(img.id@, img.repo_tags@) && img.created as int <= now as int
            - retention_seconds(days)
}

/// The id of an image.
pub open spec fn image_name() -> spec_fn(ImageRecord) -> Seq<char> {
    |img: ImageRecord| img.id@
}

/// Whether an entry was last modified before `now` less the retention
/// time.
pub open spec fn is_expired(last_modified: u64, now: u64, days: u64) -> bool {
    (last_modified as int) < now as int - retention_seconds(days)
}

/// Whether a deploy artifact is older than the retention time.
pub open spec fn artifact_expired(now: u64, days: u64) -> spec_fn(DeployArtifact) -> bool {
    |f: DeployArtifact| is_expired(f.last_modified, now, days)
}

/// Whether a package directory is to be removed: it is older than the
/// retention time, lies under the package root, and no running
/// container is deployed from it.
pub open spec fn package_due(
    root: Seq<char>,
    in_use: Set<Seq<char>>,
    now: u64,
    days: u64,
) -> spec_fn(DeployArtifact) -> bool {
    |f: DeployArtifact|
        is_expired(f.last_modified, now, days) && starts_with(f.path@, root) && !in_use.contains(
            f.path@,
        )
}

/// The path of a deploy artifact.
pub open spec fn artifact_name() -> spec_fn(DeployArtifact) -> Seq<char> {
    |f: DeployArtifact| f.path@
}

/// Every volume is due: volumes have no age and no whitelist.
pub open spec fn volume_due() -> spec_fn(String) -> bool {
    |v: String| true
}

/// The name of a volume.
pub open spec fn volume_name() -> spec_fn(String) -> Seq<char> {
    |v: String| v@
}

/// Selecting from one more item adds its name where it is due.
proof fn lemma_selected_next<T>(
    items: Seq<T>,
    k: int,
    due: spec_fn(T) -> bool,
    name: spec_fn(T) -> Seq<char>,
)
    requires
        0 <= k < items.len(),
    ensures
        selected(items.subrange(0, k + 1), due, name) == if due(items[k]) {
            selected(items.subrange(0, k), due, name).push(name(items[k]))
        } else {
            selected(items.subrange(0, k), due, name)
        },
{
    assert(items.subrange(0, k + 1).drop_last() =~= items.subrange(0, k));
}

/// Pushing a string onto a list pushes its characters onto the views.
proof fn lemma_views_push(v: Seq<String>, s: String)
    ensures
        views(v.push(s)) == views(v).push(s@),
{
    assert(views(v.push(s)) =~= views(v).push(s@));
}

/// Whether something that has lasted `elapsed` seconds has reached a
/// retention of `days` days.
pub fn has_reached_retention(elapsed: u64, days: u64) -> (r: bool)
    ensures
        r == (elapsed as nat >= retention_seconds(days)),
{
    elapsed as u128 >= days as u128 * 86_400
}

/// Whether an entry last modified at `last_modified` is older at `now`
/// than a retention of `days` days.
pub fn has_expired(last_modified: u64, now: u64, days: u64) -> (r: bool)
    ensures
        r == is_expired(last_modified, now, days),
{
    last_modified as u128 + days as u128 * 86_400 < (now as u128)
}

/// An exited container with the seconds since it exited; a status line
/// that cannot be read counts as no time at all.
pub open spec fn with_age(c: ContainerRecord) -> ComplexContainer {
    ComplexContainer { container: c, exist_duration: elapsed_or_zero(c.status@) as u64 }
}

/// Whether the container at `i` is the one that stands for its id: it
/// has an id, and no container listed after it has the same.
pub open spec fn is_kept(listing: Seq<ContainerRecord>, i: int) -> bool {
    &&& 0 <= i < listing.len()
    &&& listing[i].id@.len() > 0
    &&& forall|j: int| i < j < listing.len() ==> (#[trigger] listing[j]).id@ != listing[i].id@
}

/// The exited containers from `i` on that stand for their ids, each
/// with its age, in the order of the listing.
pub open spec fn existed_from(listing: Seq<ContainerRecord>, i: int) -> Seq<ComplexContainer>
    decreases listing.len() - i,
{
    if i < 0 || i >= listing.len() {
        Seq::empty()
    } else if is_kept(listing, i) {
        seq![with_age(listing[i])] + existed_from(listing, i + 1)
    } else {
        existed_from(listing, i + 1)
    }
}

/// Whether no two of the containers have the same id.
pub open spec fn distinct_ids(v: Seq<ComplexContainer>) -> bool {
    forall|a: int, b: int|
        0 <= a < b < v.len() ==> (#[trigger] v[a]).container.id@ != (#[trigger] v[b]).container.id@
}

/// Files the exited containers by id, each with the seconds since it
/// exited. A container without an id is left out, and of several with
/// one id the one listed last stands for it, so that no id occurs
/// twice. `None` where the listing is empty.
pub fn map_existed_containers(containers: Vec<ContainerRecord>) -> (r: Option<
    Vec<ComplexContainer>,
>)
    ensures
        containers@.len() == 0 ==> r is None,
        containers@.len() > 0 ==> r is Some && r->0@ == existed_from(containers@, 0),
        r is Some ==> distinct_ids(r->0@),
{
    if containers.len() == 0 {
        return None;
    }
    let mut containers = containers;
    let ghost all = containers@;
    let mut seen = StringHashSet::new();
    let mut out: Vec<ComplexContainer> = Vec::new();
    while containers.len() > 0
        invariant
            containers@.len() <= all.len(),
            containers@ == all.subrange(0, containers@.len() as int),
            out@ == existed_from(all, containers@.len() as int),
            forall|s: Seq<char>|
                seen@.contains(s) <==> exists|j: int|
                    containers@.len() <= j < all.len() && (#[trigger] all[j]).id@ == s,
            forall|k: int| 0 <= k < out@.len() ==> seen@.contains((#[trigger] out@[k]).container.id@),
            distinct_ids(out@),
        decreases containers@.len(),
    {
        let ghost n = containers@.len() as int;
        let ghost before = out@;
        let ghost seen_before = seen@;
        let c = containers.pop().unwrap();
        assert(c == all[n - 1]);
        let listed = seen.contains(c.id.as_str());
        let has_id = !c.id.as_str().is_empty();
        assert(listed <==> exists|j: int| n - 1 < j < all.len() && (#[trigger] all[j]).id@ == c.id@);
        assert((has_id && !listed) == is_kept(all, n - 1));
        seen.insert(c.id.clone());
        assert forall|s: Seq<char>| seen@.contains(s) <==> exists|j: int|
            n - 1 <= j < all.len() && (#[trigger] all[j]).id@ == s by {
            if seen@.contains(s) {
                if s == c.id@ {
                    assert(all[n - 1].id@ == s);
                } else {
                    let j = choose|j: int| n <= j < all.len() && (#[trigger] all[j]).id@ == s;
                    assert(n - 1 <= j && all[j].id@ == s);
                }
            }
            if exists|j: int| n - 1 <= j < all.len() && (#[trigger] all[j]).id@ == s {
                let j = choose|j: int| n - 1 <= j < all.len() && (#[trigger] all[j]).id@ == s;
                if j >= n {
                    assert(seen_before.contains(s));
                }
            }
        }
        if has_id && !listed {
            let secs = elapsed_seconds(&c);
            out.insert(0, ComplexContainer { container: c, exist_duration: secs });
            assert(out@ =~= seq![with_age(all[n - 1])] + before);
            assert forall|k: int| 0 <= k < out@.len() implies seen@.contains(
                (#[trigger] out@[k]).container.id@,
            ) by {
                if k > 0 {
                    assert(out@[k] == before[k - 1]);
                }
            }
            assert forall|a: int, b: int| 0 <= a < b < out@.len() implies (
            #[trigger] out@[a]).container.id@ != (#[trigger] out@[b]).container.id@ by {
                assert(out@[b] == before[b - 1]);
                if a > 0 {
                    assert(out@[a] == before[a - 1]);
                } else {
                    assert(seen_before.contains(before[b - 1].container.id@));
                }
            }
        }
    }
    Some(out)
}

/// The ids of the exited containers to remove: those gone for
/// `lifecycle` days or longer, the boundary included. Nothing where
/// there was no listing.
pub fn clean_exited_containers(lifecycle: u64, existed: &Option<Vec<ComplexContainer>>) -> (ids:
    Vec<String>)
    ensures
        views(ids@) == match existed {
            Some(v) => selected(v@, container_due(lifecycle), container_name()),
            None => Seq::<Seq<char>>::empty(),
        },
{
    let mut ids: Vec<String> = Vec::new();
    assert(views(ids@) =~= Seq::<Seq<char>>::empty());
    match existed {
        None => {},
        Some(v) => {
            let mut k: usize = 0;
            assert(v@.subrange(0, 0) =~= Seq::<ComplexContainer>::empty());
            while k < v.len()
                invariant
                    k <= v.len(),
                    views(ids@) == selected(
                        v@.subrange(0, k as int),
                        container_due(lifecycle),
                        container_name(),
                    ),
                decreases v.len() - k,
            {
                proof {
                    lemma_selected_next(
                        v@,
                        k as int,
                        container_due(lifecycle),
                        container_name(),
                    );
                }
                if has_reached_retention(v[k].exist_duration, lifecycle) {
                    let id = v[k].container.id.clone();
                    proof {
                        lemma_views_push(ids@, id);
                    }
                    ids.push(id);
                }
                k += 1;
            }
            assert(v@.subrange(0, k as int) =~= v@);
        },
    }
    ids
}

/// The ids of the images to delete: those that are not on the
/// whitelist and were created `lifecycle` days before `now` or earlier.
pub fn clean_images(images: &Vec<ImageRecord>, w: &Whitelist, now: u64, lifecycle: u64) -> (ids:
    Vec<String>)
    ensures
        views(ids@) == selected(images@, image_due(w@, now, lifecycle), image_name()),
{
    let mut ids: Vec<String> = Vec::new();
    assert(views(ids@) =~= Seq::<Seq<char>>::empty());
    assert(images@.subrange(0, 0) =~= Seq::<ImageRecord>::empty());
    let mut k: usize = 0;
    while k < images.len()
        invariant
            k <= images.len(),
            views(ids@) == selected(
                images@.subrange(0, k as int),
                image_due(w@, now, lifecycle),
                image_name(),
            ),
        decreases images.len() - k,
    {
        proof {
            lemma_selected_next(images@, k as int, image_due(w@, now, lifecycle), image_name());
        }
        let img = &images[k];
        if !w.is_image_whitelisted(img.id.as_str(), &img.repo_tags) && img.created as i128
            + lifecycle as i128 * 86_400 <= (now as i128) {
            let id = img.id.clone();
            proof {
                lemma_views_push(ids@, id);
            }
            ids.push(id);
        }
        k += 1;
    }
    assert(images@.subrange(0, k as int) =~= images@);
    ids
}

/// The names of the volumes to delete: every one of them.
pub fn clean_volumes(volumes: &Vec<String>) -> (names: Vec<String>)
    ensures
        views(names@) == selected(volumes@, volume_due(), volume_name()),
        views(names@) == views(volumes@),
{
    let mut names: Vec<String> = Vec::new();
    assert(views(names@) =~= Seq::<Seq<char>>::empty());
    assert(volumes@.subrange(0, 0) =~= Seq::<String>::empty());
    let mut k: usize = 0;
    while k < volumes.len()
        invariant
            k <= volumes.len(),
            views(names@) == selected(volumes@.subrange(0, k as int), volume_due(), volume_name()),
            views(names@) == views(volumes@.subrange(0, k as int)),
        decreases volumes.len() - k,
    {
        proof {
            lemma_selected_next(volumes@, k as int, volume_due(), volume_name());
        }
        let name = volumes[k].clone();
        proof {
            lemma_views_push(names@, name);
            assert(views(volumes@.subrange(0, k + 1)) =~= views(
                volumes@.subrange(0, k as int),
            ).push(volumes@[k as int]@));
        }
        names.push(name);
        k += 1;
    }
    assert(volumes@.subrange(0, k as int) =~= volumes@);
    names
}

/// The paths of the entries that were last modified more than
/// `lifecycle` days before `now`.
pub fn filter_files(entries: &Vec<DeployArtifact>, now: u64, lifecycle: u64) -> (paths: Vec<
    String,
>)
    ensures
        views(paths@) == selected(entries@, artifact_expired(now, lifecycle), artifact_name()),
{
    let mut paths: Vec<String> = Vec::new();
    assert(views(paths@) =~= Seq::<Seq<char>>::empty());
    assert(entries@.subrange(0, 0) =~= Seq::<DeployArtifact>::empty());
    let mut k: usize = 0;
    while k < entries.len()
        invariant
            k <= entries.len(),
            views(paths@) == selected(
                entries@.subrange(0, k as int),
                artifact_expired(now, lifecycle),
                artifact_name(),
            ),
        decreases entries.len() - k,
    {
        proof {
            lemma_selected_next(
                entries@,
                k as int,
                artifact_expired(now, lifecycle),
                artifact_name(),
            );
        }
        if has_expired(entries[k].last_modified, now, lifecycle) {
            let path = entries[k].path.clone();
            proof {
                lemma_views_push(paths@, path);
            }
            paths.push(path);
        }
        k += 1;
    }
    assert(entries@.subrange(0, k as int) =~= entries@);
    paths
}

/// The release files to remove: every entry of the release root that is
/// older than `lifecycle` days. Whether a container uses one is not
/// asked.
pub fn clean_release(entries: &Vec<DeployArtifact>, now: u64, lifecycle: u64) -> (paths: Vec<
    String,
>)
    ensures
        views(paths@) == selected(entries@, artifact_expired(now, lifecycle), artifact_name()),
{
    filter_files(entries, now, lifecycle)
}

/// The deploy directories that running containers are deployed from.
pub fn in_use_set(deploy_dirs: &Vec<String>) -> (set: StringHashSet)
    ensures
        set@ == strings_of(deploy_dirs@),
{
    string_set(deploy_dirs)
}

/// The package directories to remove: the entries of the package root
/// that are older than `lifecycle` days, lie under `root`, and are not
/// in use.
pub fn clean_pkg(
    entries: &Vec<DeployArtifact>,
    in_use: &StringHashSet,
    root: &str,
    now: u64,
    lifecycle: u64,
) -> (paths: Vec<String>)
    ensures
        views(paths@) == selected(
            entries@,
            package_due(root@, in_use@, now, lifecycle),
            artifact_name(),
        ),
{
    let mut paths: Vec<String> = Vec::new();
    assert(views(paths@) =~= Seq::<Seq<char>>::empty());
    assert(entries@.subrange(0, 0) =~= Seq::<DeployArtifact>::empty());
    let mut k: usize = 0;
    while k < entries.len()
        invariant
            k <= entries.len(),
            views(paths@) == selected(
                entries@.subrange(0, k as int),
                package_due(root@, in_use@, now, lifecycle),
                artifact_name(),
            ),
        decreases entries.len() - k,
    {
        proof {
            lemma_selected_next(
                entries@,
                k as int,
                package_due(root@, in_use@, now, lifecycle),
                artifact_name(),
            );
        }
        let f = &entries[k];
        if has_expired(f.last_modified, now, lifecycle) && begins_with(f.path.as_str(), root)
            && !in_use.contains(f.path.as_str()) {
            let path = f.path.clone();
            proof {
                lemma_views_push(paths@, path);
            }
            paths.push(path);
        }
        k += 1;
    }
    assert(entries@.subrange(0, k as int) =~= entries@);
    paths
}

/// Every selected name is the name of an item that is due.
pub proof fn lemma_selected_only_due<T>(
    items: Seq<T>,
    due: spec_fn(T) -> bool,
    name: spec_fn(T) -> Seq<char>,
    n: Seq<char>,
)
    requires
        selected(items, due, name).contains(n),
    ensures
        exists|i: int| 0 <= i < items.len() && due(#[trigger] items[i]) && name(items[i]) == n,
    decreases items.len(),
{
    if items.len() > 0 {
        let before = selected(items.drop_last(), due, name);
        if due(items.last()) && name(items.last()) == n {
            assert(items[items.len() - 1] == items.last());
        } else {
            if due(items.last()) {
                let pushed = before.push(name(items.last()));
                let j = choose|j: int| 0 <= j < pushed.len() && pushed[j] == n;
                assert(before[j] == n);
            }
            lemma_selected_only_due(items.drop_last(), due, name, n);
            let i = choose|i: int|
                0 <= i < items.drop_last().len() && due(#[trigger] items.drop_last()[i]) && name(
                    items.drop_last()[i],
                ) == n;
            assert(items[i] == items.drop_last()[i]);
        }
    }
}

/// The name of every item that is due is selected.
pub proof fn lemma_due_is_selected<T>(
    items: Seq<T>,
    due: spec_fn(T) -> bool,
    name: spec_fn(T) -> Seq<char>,
    i: int,
)
    requires
        0 <= i < items.len(),
        due(items[i]),
    ensures
        selected(items, due, name).contains(name(items[i])),
    decreases items.len(),
{
    let before = selected(items.drop_last(), due, name);
    if i == items.len() - 1 {
        assert(before.push(name(items.last()))[before.len() as int] == name(items[i]));
    } else {
        lemma_due_is_selected(items.drop_last(), due, name, i);
        let j = choose|j: int| 0 <= j < before.len() && before[j] == name(items[i]);
        if due(items.last()) {
            assert(before.push(name(items.last()))[j] == name(items[i]));
        }
    }
}

/// Nothing that is left after a pass is due: a second pass over what
/// the first one left, with the same clock and policy, selects nothing.
pub proof fn lemma_second_pass_selects_nothing<T>(
    items: Seq<T>,
    due: spec_fn(T) -> bool,
    name: spec_fn(T) -> Seq<char>,
)
    ensures
        selected(remaining(items, due), due, name) == Seq::<Seq<char>>::empty(),
    decreases items.len(),
{
    if items.len() > 0 {
        lemma_second_pass_selects_nothing(items.drop_last(), due, name);
        let before = remaining(items.drop_last(), due);
        if !due(items.last()) {
            assert(before.push(items.last()).drop_last() =~= before);
        }
    }
}

/// An exited container that has been gone for exactly the retention
/// time is due, and one that has been gone a second less is not.
pub proof fn lemma_retention_boundary(days: u64, c: ComplexContainer)
    ensures
        c.exist_duration == retention_seconds(days) ==> container_due(days)(c),
        c.exist_duration + 1 == retention_seconds(days) ==> !container_due(days)(c),
{
}

/// A package directory that a running container is deployed from is
/// never selected, however old it is.
pub proof fn lemma_in_use_is_kept(
    entries: Seq<DeployArtifact>,
    root: Seq<char>,
    in_use: Set<Seq<char>>,
    now: u64,
    days: u64,
    path: Seq<char>,
)
    requires
        in_use.contains(path),
    ensures
        !selected(entries, package_due(root, in_use, now, days), artifact_name()).contains(path),
{
    let due = package_due(root, in_use, now, days);
    if selected(entries, due, artifact_name()).contains(path) {
        lemma_selected_only_due(entries, due, artifact_name(), path);
    }
}

/// An image on the whitelist is never selected, however old it is.
pub proof fn lemma_whitelisted_image_is_kept(
    images: Seq<ImageRecord>,
    w: WhitelistView,
    now: u64,
    days: u64,
    i: int,
)
    requires
        0 <= i < images.len(),
        w.protects_image(images[i].id@, images[i].repo_tags@),
        forall|j: int|
            0 <= j < images.len() && (#[trigger] images[j]).id@ == images[i].id@ ==> j == i,
    ensures
        !selected(images, image_due(w, now, days), image_name()).contains(images[i].id@),
{
    let due = image_due(w, now, days);
    if selected(images, due, image_name()).contains(images[i].id@) {
        lemma_selected_only_due(images, due, image_name(), images[i].id@);
    }
}

/// Where no two exited containers have the same id, no id is selected
/// for removal twice.
pub proof fn lemma_each_id_removed_once(v: Seq<ComplexContainer>, days: u64)
    requires
        distinct_ids(v),
    ensures
        selected(v, container_due(days), container_name()).no_duplicates(),
    decreases v.len(),
{
    if v.len() > 0 {
        let due = container_due(days);
        let name = container_name();
        let head = v.drop_last();
        let before = selected(head, due, name);
        assert(distinct_ids(head)) by {
            assert forall|a: int, b: int| 0 <= a < b < head.len() implies (
            #[trigger] head[a]).container.id@ != (#[trigger] head[b]).container.id@ by {
                assert(head[a] == v[a] && head[b] == v[b]);
            }
        }
        lemma_each_id_removed_once(head, days);
        if due(v.last()) {
            let id = name(v.last());
            if before.contains(id) {
                lemma_selected_only_due(head, due, name, id);
                let i = choose|i: int|
                    0 <= i < head.len() && due(#[trigger] head[i]) && name(head[i]) == id;
                assert(head[i] == v[i]);
                assert(v[i].container.id@ != v[v.len() - 1].container.id@);
            }
            let all = before.push(id);
            assert forall|a: int, b: int| 0 <= a < all.len() && 0 <= b < all.len() && a
                != b implies all[a] != all[b] by {
                if a < before.len() && b < before.len() {
                    assert(before[a] != before[b]);
                } else if a < before.len() {
                    assert(before.contains(before[a]));
                } else {
                    assert(before.contains(before[b]));
                }
            }
        }
    }
}

} // verus!
