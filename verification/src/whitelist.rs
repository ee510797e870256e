//! The allow-list that protects named containers and images from
//! eviction and pruning.

use vstd::prelude::*;
use vstd::hash_set::StringHashSet;

verus! {

/// The strings that occur in `v`, as a set.
pub open spec fn strings_of(v: Seq<String>) -> Set<Seq<char>> {
    Set::new(|s: Seq<char>| exists|i: int| 0 <= i < v.len() && (#[trigger] v[i])@ == s)
}

/// Whether some string of `v` is a member of `set`.
pub open spec fn any_member(set: Set<Seq<char>>, v: Seq<String>) -> bool {
    exists|i: int| 0 <= i < v.len() && set.contains((#[trigger] v[i])@)
}

/// What a whitelist holds: four sets of names.
pub struct WhitelistView {
    pub container_ids: Set<Seq<char>>,
    pub container_names: Set<Seq<char>>,
    pub image_ids: Set<Seq<char>>,
    pub image_tags: Set<Seq<char>>,
}

impl WhitelistView {
    /// Whether a container with this id and these names is protected.
    pub open spec fn protects_container(self, id: Seq<char>, names: Seq<String>) -> bool {
        self.container_ids.contains(id) || any_member(self.container_names, names)
    }

    /// Whether an image with this id and these tags is protected.
    pub open spec fn protects_image(self, id: Seq<char>, tags: Seq<String>) -> bool {
        self.image_ids.contains(id) || any_member(self.image_tags, tags)
    }
}

/// Names of containers and images that no automated action may touch.
/// It is filled once, when it is made, and only read afterwards.
pub struct Whitelist {
    container_ids: StringHashSet,
    container_names: StringHashSet,
    image_ids: StringHashSet,
    image_tags: StringHashSet,
}

impl View for Whitelist {
    type V = WhitelistView;

    closed spec fn view(&self) -> WhitelistView {
        WhitelistView {
            container_ids: self.container_ids@,
            container_names: self.container_names@,
            image_ids: self.image_ids@,
            image_tags: self.image_tags@,
        }
    }
}

/// Collects the strings of `v` into a hash set.
pub fn string_set(v: &Vec<String>) -> (set: StringHashSet)
    ensures
        set@ == strings_of(v@),
{
    let mut set = StringHashSet::new();
    let mut i: usize = 0;
    while i < v.len()
        invariant
            i <= v.len(),
            set@ == strings_of(v@.subrange(0, i as int)),
        decreases v.len() - i,
    {
        let ghost before = v@.subrange(0, i as int);
        let ghost after = v@.subrange(0, i + 1);
        set.insert(v[i].clone());
        assert(set@ =~= strings_of(after)) by {
            assert forall|s: Seq<char>| strings_of(after).contains(s) implies #[trigger] set@.contains(
                s,
            ) by {
                let j = choose|j: int| 0 <= j < after.len() && (#[trigger] after[j])@ == s;
                if j < i {
                    assert(before[j]@ == s);
                }
            }
            assert forall|s: Seq<char>| #[trigger] set@.contains(s) implies strings_of(
                after,
            ).contains(s) by {
                if s == v@[i as int]@ {
                    assert(after[i as int]@ == s);
                } else {
                    let j = choose|j: int| 0 <= j < before.len() && (#[trigger] before[j])@ == s;
                    assert(after[j]@ == s);
                }
            }
        }
        i += 1;
    }
    assert(v@.subrange(0, i as int) =~= v@);
    set
}

/// Whether some string of `v` is in `set`.
fn any_in(set: &StringHashSet, v: &Vec<String>) -> (r: bool)
    ensures
        r == any_member(set@, v@),
{
    let mut i: usize = 0;
    while i < v.len()
        invariant
            i <= v.len(),
            forall|j: int| 0 <= j < i ==> !set@.contains((#[trigger] v@[j])@),
        decreases v.len() - i,
    {
        if set.contains(v[i].as_str()) {
            return true;
        }
        i += 1;
    }
    false
}

impl Whitelist {
    /// Makes a whitelist of the given container ids and names and image
    /// ids and tags.
    pub fn new(
        container_ids: &Vec<String>,
        container_names: &Vec<String>,
        image_ids: &Vec<String>,
        image_tags: &Vec<String>,
    ) -> (w: Whitelist)
        ensures
            w@.container_ids == strings_of(container_ids@),
            w@.container_names == strings_of(container_names@),
            w@.image_ids == strings_of(image_ids@),
            w@.image_tags == strings_of(image_tags@),
    {
        Whitelist {
            container_ids: string_set(container_ids),
            container_names: string_set(container_names),
            image_ids: string_set(image_ids),
            image_tags: string_set(image_tags),
        }
    }

    /// Whether a container is protected: its id is a whitelisted id, or
    /// one of its names is a whitelisted name.
    pub fn is_container_whitelisted(&self, id: &str, names: &Vec<String>) -> (r: bool)
        ensures
            r == self@.protects_container(id@, names@),
    {
        self.container_ids.contains(id) || any_in(&self.container_names, names)
    }

    /// Whether an image is protected: its id is a whitelisted id, or one
    /// of its tags is a whitelisted tag.
    pub fn is_image_whitelisted(&self, id: &str, tags: &Vec<String>) -> (r: bool)
        ensures
            r == self@.protects_image(id@, tags@),
    {
        self.image_ids.contains(id) || any_in(&self.image_tags, tags)
    }
}

} // verus!
