//! The order in which directories are visited: by their names, byte for byte.

use vstd::prelude::*;
use vstd::string::StringSliceAdditionalSpecFns;
use vstd::utf8::encode_utf8;

verus! {

/// `a` stands before `b` when the two are compared byte by byte from the
/// front: at the first place where they differ `a` has the smaller byte, or
/// `a` ends there and `b` goes on.
pub open spec fn bytes_before(a: Seq<u8>, b: Seq<u8>) -> bool
    decreases a.len(),
{
    if b.len() == 0 {
        false
    } else if a.len() == 0 {
        true
    } else if a[0] != b[0] {
        a[0] < b[0]
    } else {
        bytes_before(a.skip(1), b.skip(1))
    }
}

/// The name `a` stands before the name `b`: their UTF-8 bytes do.
pub open spec fn before(a: Seq<char>, b: Seq<char>) -> bool {
    bytes_before(encode_utf8(a), encode_utf8(b))
}

/// No name stands before one that comes earlier in `names`.
pub open spec fn ascending(names: Seq<Seq<char>>) -> bool {
    forall|i: int, j: int| 0 <= i < j < names.len() ==> !before(#[trigger] names[j], #[trigger] names[i])
}

/// The order is transitive.
pub proof fn lemma_bytes_before_transitive(a: Seq<u8>, b: Seq<u8>, c: Seq<u8>)
    requires
        bytes_before(a, b),
        bytes_before(b, c),
    ensures
        bytes_before(a, c),
    decreases a.len(),
{
    if a.len() > 0 && a[0] == b[0] && b[0] == c[0] {
        lemma_bytes_before_transitive(a.skip(1), b.skip(1), c.skip(1));
    }
}

/// Nothing stands before itself.
pub proof fn lemma_bytes_before_irreflexive(a: Seq<u8>)
    ensures
        !bytes_before(a, a),
    decreases a.len(),
{
    if a.len() > 0 {
        lemma_bytes_before_irreflexive(a.skip(1));
    }
}

/// Of two different texts one stands before the other.
pub proof fn lemma_bytes_before_total(a: Seq<u8>, b: Seq<u8>)
    requires
        !bytes_before(a, b),
        !bytes_before(b, a),
    ensures
        a == b,
    decreases a.len(),
{
    if a.len() == 0 || b.len() == 0 {
        assert(a == b);
    } else {
        lemma_bytes_before_total(a.skip(1), b.skip(1));
        assert(a == seq![a[0]] + a.skip(1));
        assert(b == seq![b[0]] + b.skip(1));
    }
}

/// Of two different names one stands before the other.
pub proof fn lemma_before_total(a: Seq<char>, b: Seq<char>)
    requires
        !before(a, b),
        !before(b, a),
    ensures
        a == b,
{
    lemma_bytes_before_total(encode_utf8(a), encode_utf8(b));
    vstd::utf8::encode_utf8_decode_utf8(a);
    vstd::utf8::encode_utf8_decode_utf8(b);
}

/// There is one ascending order of given names: two ascending sequences that
/// hold the same names, each as often, are the same sequence. The order in
/// which a listing is visited therefore does not depend on the order in
/// which its entries were found.
pub proof fn lemma_ascending_unique(a: Seq<Seq<char>>, b: Seq<Seq<char>>)
    requires
        ascending(a),
        ascending(b),
        a.to_multiset() == b.to_multiset(),
    ensures
        a == b,
    decreases a.len(),
{
    broadcast use vstd::seq_lib::group_to_multiset_ensures;

    assert(a.len() == b.len()) by {
        a.to_multiset_ensures();
        b.to_multiset_ensures();
    }
    if a.len() == 0 {
        assert(a == b);
    } else {
        let x = a.last();
        let y = b.last();
        assert(a.contains(x));
        assert(b.to_multiset().count(x) > 0);
        assert(b.contains(x));
        let j = choose|j: int| 0 <= j < b.len() && b[j] == x;
        assert(!before(y, x)) by {
            if j < b.len() - 1 {
                assert(!before(b[b.len() - 1], b[j]));
            } else {
                lemma_bytes_before_irreflexive(encode_utf8(x));
            }
        }
        assert(b.contains(y));
        assert(a.to_multiset().count(y) > 0);
        assert(a.contains(y));
        let i = choose|i: int| 0 <= i < a.len() && a[i] == y;
        assert(!before(x, y)) by {
            if i < a.len() - 1 {
                assert(!before(a[a.len() - 1], a[i]));
            } else {
                lemma_bytes_before_irreflexive(encode_utf8(x));
            }
        }
        lemma_before_total(x, y);
        let a0 = a.drop_last();
        let b0 = b.drop_last();
        assert(a == a0.push(x));
        assert(b == b0.push(x));
        assert(a0.to_multiset() =~= b0.to_multiset()) by {
            assert forall|v: Seq<char>| a0.to_multiset().count(v) == b0.to_multiset().count(v) by {
                assert(a0.to_multiset().insert(x).count(v) == b0.to_multiset().insert(x).count(v));
            }
        }
        assert(ascending(a0)) by {
            assert forall|i: int, j: int| 0 <= i < j < a0.len() implies !before(
                #[trigger] a0[j],
                #[trigger] a0[i],
            ) by {
                assert(!before(a[j], a[i]));
            }
        }
        assert(ascending(b0)) by {
            assert forall|i: int, j: int| 0 <= i < j < b0.len() implies !before(
                #[trigger] b0[j],
                #[trigger] b0[i],
            ) by {
                assert(!before(b[j], b[i]));
            }
        }
        lemma_ascending_unique(a0, b0);
    }
}

/// Where `name` may go into the ascending `sorted` so that it stays
/// ascending.
proof fn lemma_place_exists(sorted: Seq<Seq<char>>, name: Seq<char>) -> (place: int)
    requires
        ascending(sorted),
    ensures
        0 <= place <= sorted.len(),
        ascending(sorted.insert(place, name)),
    decreases sorted.len(),
{
    if sorted.len() == 0 {
        0
    } else {
        let last = sorted.last();
        let front = sorted.drop_last();
        if before(name, last) {
            assert(ascending(front)) by {
                assert forall|i: int, j: int| 0 <= i < j < front.len() implies !before(
                    #[trigger] front[j],
                    #[trigger] front[i],
                ) by {
                    assert(!before(sorted[j], sorted[i]));
                }
            }
            let place = lemma_place_exists(front, name);
            let wider = sorted.insert(place, name);
            assert(wider == front.insert(place, name).push(last));
            assert forall|i: int, j: int| 0 <= i < j < wider.len() implies !before(
                #[trigger] wider[j],
                #[trigger] wider[i],
            ) by {
                if j < wider.len() - 1 {
                    assert(!before(front.insert(place, name)[j], front.insert(place, name)[i]));
                } else if i == place {
                    if before(last, name) {
                        lemma_bytes_before_transitive(
                            encode_utf8(last),
                            encode_utf8(name),
                            encode_utf8(last),
                        );
                        lemma_bytes_before_irreflexive(encode_utf8(last));
                    }
                } else {
                    let k = if i < place { i } else { i - 1 };
                    assert(wider[i] == sorted[k]);
                    assert(!before(sorted[sorted.len() - 1], sorted[k]));
                }
            }
            place
        } else {
            let wider = sorted.insert(sorted.len() as int, name);
            assert forall|i: int, j: int| 0 <= i < j < wider.len() implies !before(
                #[trigger] wider[j],
                #[trigger] wider[i],
            ) by {
                if j < wider.len() - 1 {
                    assert(!before(sorted[j], sorted[i]));
                } else if before(name, sorted[i]) {
                    if i < sorted.len() - 1 {
                        assert(!before(sorted[sorted.len() - 1], sorted[i]));
                    } else {
                        lemma_bytes_before_irreflexive(encode_utf8(last));
                    }
                    if before(sorted[i], last) {
                        lemma_bytes_before_transitive(
                            encode_utf8(name),
                            encode_utf8(sorted[i]),
                            encode_utf8(last),
                        );
                    } else {
                        lemma_before_total(sorted[i], last);
                    }
                }
            }
            sorted.len() as int
        }
    }
}

/// Any names can be put in ascending order.
proof fn lemma_sorted_exists(names: Seq<Seq<char>>) -> (sorted: Seq<Seq<char>>)
    ensures
        ascending(sorted),
        sorted.to_multiset() == names.to_multiset(),
    decreases names.len(),
{
    if names.len() == 0 {
        names
    } else {
        let front = names.drop_last();
        let sorted = lemma_sorted_exists(front);
        let place = lemma_place_exists(sorted, names.last());
        assert(names == front.push(names.last()));
        vstd::seq_lib::to_multiset_build(front, names.last());
        vstd::seq_lib::to_multiset_insert(sorted, place, names.last());
        sorted.insert(place, names.last())
    }
}

/// The names of one listing in the order in which they are visited: the
/// same names, each as often as it was found, in ascending order.
pub open spec fn in_order(names: Seq<Seq<char>>) -> Seq<Seq<char>> {
    choose|sorted: Seq<Seq<char>>| ascending(sorted) && sorted.to_multiset() == names.to_multiset()
}

/// `in_order` is what its name says, and nothing else is: it ascends, it
/// holds what was found, and it is the only such sequence.
pub proof fn lemma_in_order(names: Seq<Seq<char>>)
    ensures
        ascending(in_order(names)),
        in_order(names).to_multiset() == names.to_multiset(),
        in_order(names).len() == names.len(),
        forall|sorted: Seq<Seq<char>>|
            ascending(sorted) && sorted.to_multiset() == names.to_multiset() ==> sorted == in_order(
                names,
            ),
{
    let witness = lemma_sorted_exists(names);
    in_order(names).to_multiset_ensures();
    names.to_multiset_ensures();
    assert forall|sorted: Seq<Seq<char>>|
        ascending(sorted) && sorted.to_multiset() == names.to_multiset() implies sorted == in_order(
        names,
    ) by {
        lemma_ascending_unique(sorted, in_order(names));
    }
}

/// The directories of `listings` in the order in which they are visited:
/// listing after listing, each in ascending order.
pub open spec fn visited(listings: Seq<Seq<Seq<char>>>) -> Seq<Seq<char>>
    decreases listings.len(),
{
    if listings.len() == 0 {
        Seq::empty()
    } else {
        visited(listings.drop_last()) + in_order(listings.last())
    }
}

/// The number of directories in all of `listings`.
pub open spec fn total(listings: Seq<Seq<Seq<char>>>) -> nat
    decreases listings.len(),
{
    if listings.len() == 0 {
        0
    } else {
        total(listings.drop_last()) + listings.last().len()
    }
}

/// Every directory that was found is visited, and no other: as many are
/// visited as there are in all the listings together.
pub proof fn lemma_visited_total(listings: Seq<Seq<Seq<char>>>)
    ensures
        visited(listings).len() == total(listings),
    decreases listings.len(),
{
    if listings.len() > 0 {
        lemma_visited_total(listings.drop_last());
        lemma_in_order(listings.last());
    }
}

/// The order of the visit does not depend on the order in which the entries
/// of a listing were found: listings that hold the same names, each as
/// often, are visited in the same order.
pub proof fn lemma_visited_same(a: Seq<Seq<Seq<char>>>, b: Seq<Seq<Seq<char>>>)
    requires
        a.len() == b.len(),
        forall|i: int| 0 <= i < a.len() ==> (#[trigger] a[i]).to_multiset() == b[i].to_multiset(),
    ensures
        visited(a) == visited(b),
    decreases a.len(),
{
    if a.len() > 0 {
        assert forall|i: int| 0 <= i < a.drop_last().len() implies (#[trigger] a.drop_last()[i]).to_multiset()
            == b.drop_last()[i].to_multiset() by {
            assert(a.drop_last()[i] == a[i]);
        }
        lemma_visited_same(a.drop_last(), b.drop_last());
        assert(a.last() == a[a.len() - 1]);
        lemma_in_order(a.last());
        lemma_in_order(b.last());
    }
}

/// Whether the name `a` stands before the name `b`.
pub fn comes_before(a: &str, b: &str) -> (first: bool)
    ensures
        first == before(a@, b@),
{
    let x = a.as_bytes();
    let y = b.as_bytes();
    let mut i: usize = 0;
    proof {
        assert(x@.skip(0) == x@);
        assert(y@.skip(0) == y@);
    }
    while i < x.len() && i < y.len()
        invariant
            i <= x.len(),
            i <= y.len(),
            x@ == encode_utf8(a@),
            y@ == encode_utf8(b@),
            bytes_before(x@, y@) == bytes_before(x@.skip(i as int), y@.skip(i as int)),
        decreases x.len() - i,
    {
        proof {
            assert(x@.skip(i as int).skip(1) == x@.skip(i + 1));
            assert(y@.skip(i as int).skip(1) == y@.skip(i + 1));
            assert(x@.skip(i as int)[0] == x@[i as int]);
            assert(y@.skip(i as int)[0] == y@[i as int]);
        }
        if x[i] != y[i] {
            return x[i] < y[i];
        }
        i = i + 1;
    }
    x.len() < y.len()
}

/// The place at which `name` goes into `sorted` so that the order holds:
/// behind every name that does not stand after it.
pub(crate) fn place_of(sorted: &Vec<String>, name: &str) -> (place: usize)
    requires
        ascending(sorted.deep_view()),
    ensures
        place <= sorted.len(),
        ascending(sorted.deep_view().insert(place as int, name@)),
{
    let mut place: usize = 0;
    while place < sorted.len() && !comes_before(name, sorted[place].as_str())
        invariant
            place <= sorted.len(),
            forall|i: int| 0 <= i < place ==> !before(name@, #[trigger] sorted.deep_view()[i]),
        decreases sorted.len() - place,
    {
        place = place + 1;
    }
    proof {
        let old_names = sorted.deep_view();
        let names = old_names.insert(place as int, name@);
        assert forall|i: int, j: int| 0 <= i < j < names.len() implies !before(
            #[trigger] names[j],
            #[trigger] names[i],
        ) by {
            if j == place {
                assert(names[i] == old_names[i]);
            } else if i == place {
                assert(names[j] == old_names[j - 1]);
                assert(old_names[place as int] == sorted[place as int]@);
                assert(before(name@, old_names[place as int]));
                lemma_bytes_before_irreflexive(encode_utf8(old_names[place as int]));
                if before(names[j], names[i]) {
                    lemma_bytes_before_transitive(
                        encode_utf8(old_names[j - 1]),
                        encode_utf8(name@),
                        encode_utf8(old_names[place as int]),
                    );
                    assert(before(old_names[j - 1], old_names[place as int]));
                }
            } else {
                let oi = if i < place { i } else { i - 1 };
                let oj = if j < place { j } else { j - 1 };
                assert(names[i] == old_names[oi]);
                assert(names[j] == old_names[oj]);
            }
        }
    }
    place
}

/// The directories of one listing in the order in which they are visited:
/// the same paths, each as often as it was found, none before an earlier one.
pub fn sort_dirs(found: &Vec<String>) -> (sorted: Vec<String>)
    ensures
        sorted.deep_view() == in_order(found.deep_view()),
        ascending(sorted.deep_view()),
        sorted.deep_view().to_multiset() == found.deep_view().to_multiset(),
{
    let ghost all = found.deep_view();
    let mut sorted: Vec<String> = Vec::new();
    let mut i: usize = 0;
    proof {
        assert(sorted.deep_view() == all.take(0));
    }
    while i < found.len()
        invariant
            i <= found.len(),
            all == found.deep_view(),
            ascending(sorted.deep_view()),
            sorted.deep_view().to_multiset() == all.take(i as int).to_multiset(),
        decreases found.len() - i,
    {
        let ghost done = sorted.deep_view();
        let dir = found[i].clone();
        let place = place_of(&sorted, dir.as_str());
        sorted.insert(place, dir);
        proof {
            assert(all.take(i + 1) == all.take(i as int).push(dir@));
            vstd::seq_lib::to_multiset_build(all.take(i as int), dir@);
            assert(sorted.deep_view() == done.insert(place as int, dir@));
            vstd::seq_lib::to_multiset_insert(done, place as int, dir@);
        }
        i = i + 1;
    }
    proof {
        assert(all.take(found.len() as int) == all);
        lemma_in_order(all);
    }
    sorted
}

} // verus!
