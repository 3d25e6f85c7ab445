//! The modules that were found, grouped by pattern family.

use crate::generator::module::{module_at, split, Module, ModuleView};
use crate::generator::order::{ascending, in_order, place_of, sort_dirs, visited};
use itertools::Itertools;
use vstd::prelude::*;

verus! {

/// One pattern family: its name and its modules.
pub struct GroupView {
    pub pattern: Seq<char>,
    pub modules: Seq<ModuleView>,
}

/// The modules of `found` that belong to `pattern`, in the order of `found`.
pub open spec fn with_pattern(found: Seq<ModuleView>, pattern: Seq<char>) -> Seq<ModuleView> {
    found.filter(|module: ModuleView| module.pattern == pattern)
}

/// The names of the families of `groups`, in their order.
pub open spec fn patterns_of(groups: Seq<GroupView>) -> Seq<Seq<char>> {
    groups.map_values(|group: GroupView| group.pattern)
}

/// `groups` is `found` grouped by pattern family: the families in ascending
/// order of their names, each once, each with all its modules in the order
/// in which they were found, and no family without a module.
pub open spec fn grouped(groups: Seq<GroupView>, found: Seq<ModuleView>) -> bool {
    &&& ascending(patterns_of(groups))
    &&& forall|i: int, j: int|
        0 <= i < j < groups.len() ==> (#[trigger] groups[i]).pattern != (#[trigger] groups[j]).pattern
    &&& forall|i: int|
        0 <= i < groups.len() ==> {
            &&& (#[trigger] groups[i]).modules == with_pattern(found, groups[i].pattern)
            &&& groups[i].modules.len() > 0
        }
    &&& forall|k: int|
        0 <= k < found.len() ==> patterns_of(groups).contains((#[trigger] found[k]).pattern)
}

/// Grouping keeps the order in which the modules were found: of two modules
/// of one family, the one that stands first in the family was found first.
pub proof fn lemma_group_keeps_order(found: Seq<ModuleView>, pattern: Seq<char>, a: int, b: int)
    requires
        0 <= a < b < with_pattern(found, pattern).len(),
    ensures
        exists|i: int, j: int|
            0 <= i < j < found.len() && #[trigger] found[i] == with_pattern(found, pattern)[a]
                && #[trigger] found[j] == with_pattern(found, pattern)[b],
    decreases found.len(),
{
    reveal(Seq::filter);
    let of_pattern = |module: ModuleView| module.pattern == pattern;
    let family = with_pattern(found, pattern);
    let front = found.drop_last();
    let front_family = with_pattern(front, pattern);
    if b < front_family.len() {
        lemma_group_keeps_order(front, pattern, a, b);
        let (i, j) = choose|i: int, j: int|
            0 <= i < j < front.len() && #[trigger] front[i] == front_family[a]
                && #[trigger] front[j] == front_family[b];
        assert(found[i] == family[a] && found[j] == family[b]);
    } else {
        assert(family == front_family.push(found.last()));
        assert(front_family.contains(front_family[a]));
        front.lemma_filter_contains_rev(of_pattern, front_family[a]);
        let i = choose|i: int| 0 <= i < front.len() && front[i] == front_family[a];
        let j = found.len() - 1;
        assert(found[i] == family[a] && found[j] == family[b]);
    }
}

/// There is one way to group given modules: the families of `found` and
/// their order do not depend on anything but `found`.
pub proof fn lemma_grouped_unique(a: Seq<GroupView>, b: Seq<GroupView>, found: Seq<ModuleView>)
    requires
        grouped(a, found),
        grouped(b, found),
    ensures
        a == b,
{
    let pa = patterns_of(a);
    let pb = patterns_of(b);
    lemma_same_patterns(a, b, found);
    lemma_same_patterns(b, a, found);
    assert(pa.to_multiset() =~= pb.to_multiset()) by {
        broadcast use vstd::seq_lib::group_to_multiset_ensures;

        assert(pa.no_duplicates());
        assert(pb.no_duplicates());
        pa.lemma_multiset_has_no_duplicates();
        pb.lemma_multiset_has_no_duplicates();
        assert forall|v: Seq<char>| pa.to_multiset().count(v) == pb.to_multiset().count(v) by {
            if pa.contains(v) {
                assert(pb.contains(v));
            } else if pb.contains(v) {
                assert(pa.contains(v));
            }
        }
    }
    crate::generator::order::lemma_ascending_unique(pa, pb);
    assert(pa.len() == a.len() && pb.len() == b.len());
    assert forall|i: int| 0 <= i < a.len() implies a[i] == b[i] by {
        assert(pa[i] == pb[i]);
        assert(a[i].modules == b[i].modules);
    }
    assert(a == b);
}

/// Every family of one grouping of `found` is a family of any other.
proof fn lemma_same_patterns(a: Seq<GroupView>, b: Seq<GroupView>, found: Seq<ModuleView>)
    requires
        grouped(a, found),
        grouped(b, found),
    ensures
        forall|v: Seq<char>| patterns_of(a).contains(v) ==> patterns_of(b).contains(v),
{
    assert forall|v: Seq<char>| patterns_of(a).contains(v) implies patterns_of(b).contains(v) by {
        let i = choose|i: int| 0 <= i < patterns_of(a).len() && patterns_of(a)[i] == v;
        let of_pattern = |module: ModuleView| module.pattern == v;
        assert(a[i].modules == with_pattern(found, v));
        let first = a[i].modules[0];
        assert(a[i].modules.contains(first));
        found.lemma_filter_contains_rev(of_pattern, first);
        let k = choose|k: int| 0 <= k < found.len() && found[k] == first;
        assert(patterns_of(b).contains(found[k].pattern));
    }
}

/// The modules at `paths`, one for each path.
pub open spec fn modules_at(paths: Seq<Seq<char>>) -> Seq<ModuleView> {
    paths.map_values(|path: Seq<char>| module_at(path))
}

/// The families side by side with their modules.
spec fn zip(patterns: Seq<Seq<char>>, lists: Seq<Seq<ModuleView>>) -> Seq<GroupView> {
    Seq::new(patterns.len(), |i: int| GroupView { pattern: patterns[i], modules: lists[i] })
}

/// The modules found under the source root, by pattern family. The families
/// are kept in ascending order of their names, each family once; a module
/// stands in the family that it names.
pub struct Modules {
    patterns: Vec<String>,
    lists: Vec<Vec<Module>>,
}

impl View for Modules {
    type V = Seq<GroupView>;

    closed spec fn view(&self) -> Seq<GroupView> {
        zip(self.patterns.deep_view(), self.lists.deep_view())
    }
}

/// What holds of every `Modules`: the families ascend, none occurs twice,
/// and every module names the family in which it stands.
pub open spec fn well_grouped(groups: Seq<GroupView>) -> bool {
    &&& ascending(patterns_of(groups))
    &&& forall|i: int, j: int|
        0 <= i < j < groups.len() ==> (#[trigger] groups[i]).pattern != (#[trigger] groups[j]).pattern
    &&& forall|i: int, k: int|
        0 <= i < groups.len() && 0 <= k < groups[i].modules.len() ==> (#[trigger] groups[i].modules[k]).pattern
            == groups[i].pattern
}

/// Groups `found` by pattern family with itertools' `into_group_map_by` and
/// hands the families out in the order in which the hash map is walked, which
/// is left open. Trusted: no family comes twice, each family holds the modules
/// of `found` that name it, in the order of `found`, and at least one, and the
/// family of every module of `found` is among them.
#[verifier::external_body]
fn into_group_map_by_pattern(found: Vec<Module>) -> (groups: Vec<(String, Vec<Module>)>)
    ensures
        forall|i: int, j: int|
            0 <= i < j < groups.len() ==> (#[trigger] groups[i]).0@ != (#[trigger] groups[j]).0@,
        forall|i: int|
            0 <= i < groups.len() ==> {
                &&& (#[trigger] groups[i]).1.deep_view() == with_pattern(
                    found.deep_view(),
                    groups[i].0@,
                )
                &&& groups[i].1.len() > 0
            },
        forall|k: int|
            0 <= k < found.len() ==> exists|i: int|
                0 <= i < groups.len() && (#[trigger] groups[i]).0@ == (#[trigger] found[k])@.pattern,
{
    found.into_iter().into_group_map_by(|module| module.pattern.clone()).into_iter().collect()
}

/// The names of the families that are still to be placed.
spec fn keys_of(rest: Seq<(String, Vec<Module>)>) -> Seq<Seq<char>> {
    rest.map_values(|group: (String, Vec<Module>)| group.0@)
}

/// The members of the families that are still to be placed.
spec fn members_of(rest: Seq<(String, Vec<Module>)>) -> Seq<Seq<ModuleView>> {
    rest.map_values(|group: (String, Vec<Module>)| group.1.deep_view())
}

/// What holds while the families move from `keys` into `patterns`, one by
/// one: between them they hold every family of `found` once, each with its
/// modules, and those already placed ascend.
spec fn placing(
    patterns: Seq<Seq<char>>,
    lists: Seq<Seq<ModuleView>>,
    keys: Seq<Seq<char>>,
    members: Seq<Seq<ModuleView>>,
    found: Seq<ModuleView>,
) -> bool {
    &&& patterns.len() == lists.len()
    &&& keys.len() == members.len()
    &&& ascending(patterns)
    &&& forall|i: int, j: int| 0 <= i < j < patterns.len() ==> #[trigger] patterns[i] != #[trigger] patterns[j]
    &&& forall|i: int, j: int| 0 <= i < j < keys.len() ==> #[trigger] keys[i] != #[trigger] keys[j]
    &&& forall|i: int, j: int|
        0 <= i < patterns.len() && 0 <= j < keys.len() ==> #[trigger] patterns[i] != #[trigger] keys[j]
    &&& forall|i: int|
        0 <= i < patterns.len() ==> #[trigger] lists[i] == with_pattern(found, patterns[i])
            && lists[i].len() > 0
    &&& forall|i: int|
        0 <= i < keys.len() ==> #[trigger] members[i] == with_pattern(found, keys[i])
            && members[i].len() > 0
    &&& forall|k: int|
        0 <= k < found.len() ==> patterns.contains((#[trigger] found[k]).pattern) || keys.contains(
            found[k].pattern,
        )
}

/// Moving the last family that is left to `place` keeps `placing`.
proof fn lemma_place_last(
    patterns: Seq<Seq<char>>,
    lists: Seq<Seq<ModuleView>>,
    keys: Seq<Seq<char>>,
    members: Seq<Seq<ModuleView>>,
    found: Seq<ModuleView>,
    place: int,
)
    requires
        placing(patterns, lists, keys, members, found),
        keys.len() > 0,
        0 <= place <= patterns.len(),
        ascending(patterns.insert(place, keys.last())),
    ensures
        placing(
            patterns.insert(place, keys.last()),
            lists.insert(place, members.last()),
            keys.drop_last(),
            members.drop_last(),
            found,
        ),
{
    let key = keys.last();
    let patterns2 = patterns.insert(place, key);
    let lists2 = lists.insert(place, members.last());
    let keys2 = keys.drop_last();
    let members2 = members.drop_last();
    assert forall|i: int, j: int| 0 <= i < j < patterns2.len() implies #[trigger] patterns2[i]
        != #[trigger] patterns2[j] by {
        let oi = if i < place { i } else { i - 1 };
        let oj = if j < place { j } else { j - 1 };
        if i == place {
            assert(patterns2[j] == patterns[oj]);
            assert(patterns[oj] != keys[keys.len() - 1]);
        } else if j == place {
            assert(patterns2[i] == patterns[oi]);
            assert(patterns[oi] != keys[keys.len() - 1]);
        } else {
            assert(patterns2[i] == patterns[oi]);
            assert(patterns2[j] == patterns[oj]);
        }
    }
    assert forall|i: int, j: int| 0 <= i < patterns2.len() && 0 <= j < keys2.len() implies #[trigger] patterns2[i]
        != #[trigger] keys2[j] by {
        let oi = if i < place { i } else { i - 1 };
        assert(keys2[j] == keys[j]);
        if i == place {
            assert(keys[j] != keys[keys.len() - 1]);
        } else {
            assert(patterns2[i] == patterns[oi]);
        }
    }
    assert forall|i: int| 0 <= i < patterns2.len() implies #[trigger] lists2[i] == with_pattern(
        found,
        patterns2[i],
    ) && lists2[i].len() > 0 by {
        let oi = if i < place { i } else { i - 1 };
        if i == place {
            assert(lists2[i] == members[members.len() - 1]);
        } else {
            assert(patterns2[i] == patterns[oi]);
            assert(lists2[i] == lists[oi]);
        }
    }
    assert forall|i: int| 0 <= i < keys2.len() implies #[trigger] members2[i] == with_pattern(
        found,
        keys2[i],
    ) && members2[i].len() > 0 by {
        assert(members2[i] == members[i]);
        assert(keys2[i] == keys[i]);
    }
    assert forall|k: int| 0 <= k < found.len() implies patterns2.contains(
        (#[trigger] found[k]).pattern,
    ) || keys2.contains(found[k].pattern) by {
        let pattern = found[k].pattern;
        if patterns.contains(pattern) {
            let i = choose|i: int| 0 <= i < patterns.len() && patterns[i] == pattern;
            let ni = if i < place { i } else { i + 1 };
            assert(patterns2[ni] == pattern);
        } else {
            let j = choose|j: int| 0 <= j < keys.len() && keys[j] == pattern;
            if j == keys.len() - 1 {
                assert(patterns2[place] == pattern);
            } else {
                assert(keys2[j] == pattern);
            }
        }
    }
}

/// The modules of `found` by pattern family.
pub fn group_by_pattern(found: Vec<Module>) -> (modules: Modules)
    ensures
        grouped(modules@, found.deep_view()),
{
    let ghost all = found.deep_view();
    let mut rest = into_group_map_by_pattern(found);
    let mut patterns: Vec<String> = Vec::new();
    let mut lists: Vec<Vec<Module>> = Vec::new();
    proof {
        let keys = keys_of(rest@);
        assert forall|k: int| 0 <= k < all.len() implies keys.contains((#[trigger] all[k]).pattern) by {
            let i = choose|i: int| 0 <= i < rest.len() && (#[trigger] rest[i]).0@ == found[k]@.pattern;
            assert(keys[i] == all[k].pattern);
        }
        assert(placing(patterns.deep_view(), lists.deep_view(), keys, members_of(rest@), all));
    }
    while rest.len() > 0
        invariant
            placing(patterns.deep_view(), lists.deep_view(), keys_of(rest@), members_of(rest@), all),
        decreases rest.len(),
    {
        let ghost patterns0 = patterns.deep_view();
        let ghost lists0 = lists.deep_view();
        let ghost keys0 = keys_of(rest@);
        let ghost members0 = members_of(rest@);
        let (pattern, members) = rest.pop().unwrap();
        let place = place_of(&patterns, pattern.as_str());
        proof {
            assert(keys0.last() == pattern@);
            assert(members0.last() == members.deep_view());
            lemma_place_last(patterns0, lists0, keys0, members0, all, place as int);
        }
        patterns.insert(place, pattern);
        lists.insert(place, members);
        proof {
            assert(patterns.deep_view() == patterns0.insert(place as int, pattern@));
            assert(lists.deep_view() == lists0.insert(place as int, members.deep_view()));
            assert(keys_of(rest@) == keys0.drop_last());
            assert(members_of(rest@) == members0.drop_last());
        }
    }
    proof {
        let groups = zip(patterns.deep_view(), lists.deep_view());
        assert(patterns_of(groups) == patterns.deep_view());
        assert(keys_of(rest@).len() == 0);
        lemma_members_name_pattern(groups, all);
    }
    Modules { patterns, lists }
}

/// Families that hold the modules of `found` that name them are well
/// grouped.
proof fn lemma_members_name_pattern(groups: Seq<GroupView>, found: Seq<ModuleView>)
    requires
        grouped(groups, found),
    ensures
        well_grouped(groups),
{
    assert forall|i: int, k: int|
        0 <= i < groups.len() && 0 <= k < groups[i].modules.len() implies (#[trigger] groups[i].modules[k]).pattern
        == groups[i].pattern by {
        let pattern = groups[i].pattern;
        found.lemma_filter_pred(|module: ModuleView| module.pattern == pattern, k);
    }
}

/// The modules found in `listings`, by pattern family. There is one
/// listing for each pattern family, with the directories found in it in any
/// order; the listings are visited in the order given, the directories of
/// each in ascending order. Each directory has the form `root/pattern/name`:
/// at least three pieces between slashes.
pub fn find_mods(listings: &Vec<Vec<String>>) -> (modules: Modules)
    requires
        forall|i: int, j: int|
            0 <= i < listings.len() && 0 <= j < listings[i].len() ==> split(
                #[trigger] listings[i][j]@,
                '/',
            ).len() >= 3,
    ensures
        grouped(modules@, modules_at(visited(listings.deep_view()))),
{
    let ghost all = listings.deep_view();
    let mut found: Vec<Module> = Vec::new();
    let mut i: usize = 0;
    proof {
        assert(found.deep_view() == modules_at(visited(all.take(0))));
    }
    while i < listings.len()
        invariant
            i <= listings.len(),
            all == listings.deep_view(),
            forall|i: int, j: int|
                0 <= i < listings.len() && 0 <= j < listings[i].len() ==> split(
                    #[trigger] listings[i][j]@,
                    '/',
                ).len() >= 3,
            found.deep_view() == modules_at(visited(all.take(i as int))),
        decreases listings.len() - i,
    {
        let ghost above = found.deep_view();
        let ghost listing = all[i as int];
        let mod_dirs = sort_dirs(&listings[i]);
        let mut j: usize = 0;
        proof {
            assert(listings[i as int].deep_view() == listing);
            assert(found.deep_view() == above + modules_at(in_order(listing).take(0)));
            assert forall|k: int| 0 <= k < mod_dirs.len() implies split(
                #[trigger] mod_dirs[k]@,
                '/',
            ).len() >= 3 by {
                broadcast use vstd::seq_lib::group_to_multiset_ensures;

                let dir = mod_dirs.deep_view()[k];
                assert(mod_dirs.deep_view().contains(dir));
                assert(listing.to_multiset().count(dir) > 0);
                assert(listing.contains(dir));
                let at = choose|at: int| 0 <= at < listing.len() && listing[at] == dir;
                assert(listings[i as int][at]@ == dir);
            }
        }
        while j < mod_dirs.len()
            invariant
                j <= mod_dirs.len(),
                mod_dirs.deep_view() == in_order(listing),
                forall|k: int| 0 <= k < mod_dirs.len() ==> split(#[trigger] mod_dirs[k]@, '/').len() >= 3,
                found.deep_view() == above + modules_at(in_order(listing).take(j as int)),
            decreases mod_dirs.len() - j,
        {
            let ghost before = found.deep_view();
            found.push(Module::new(mod_dirs[j].as_str()));
            proof {
                let sorted = in_order(listing);
                assert(sorted[j as int] == mod_dirs[j as int]@);
                assert(sorted.take(j + 1) == sorted.take(j as int).push(sorted[j as int]));
                assert(found.deep_view() == before.push(module_at(sorted[j as int])));
            }
            j = j + 1;
        }
        proof {
            let sorted = in_order(listing);
            assert(sorted.take(mod_dirs.len() as int) == sorted);
            assert(all.take(i + 1).drop_last() == all.take(i as int));
            assert(all.take(i + 1).last() == listing);
            assert(modules_at(visited(all.take(i as int)) + sorted) == modules_at(
                visited(all.take(i as int)),
            ) + modules_at(sorted));
        }
        i = i + 1;
    }
    proof {
        assert(all.take(listings.len() as int) == all);
    }
    group_by_pattern(found)
}

impl Modules {
    #[verifier::type_invariant]
    spec fn well_formed(self) -> bool {
        self.patterns.len() == self.lists.len() && well_grouped(self@)
    }

    /// The number of pattern families.
    pub fn len(&self) -> (len: usize)
        ensures
            len == self@.len(),
            well_grouped(self@),
    {
        proof {
            use_type_invariant(self);
        }
        self.patterns.len()
    }

    /// The name of the family at `index`.
    pub fn pattern(&self, index: usize) -> (pattern: &str)
        requires
            index < self@.len(),
        ensures
            pattern@ == self@[index as int].pattern,
    {
        proof {
            use_type_invariant(self);
        }
        self.patterns[index].as_str()
    }

    /// The modules of the family at `index`, in the order in which they were
    /// found.
    pub fn members(&self, index: usize) -> (members: &Vec<Module>)
        requires
            index < self@.len(),
        ensures
            members.deep_view() == self@[index as int].modules,
    {
        proof {
            use_type_invariant(self);
        }
        &self.lists[index]
    }
}

} // verus!
