//! The order of a listing: names ascending by their bytes, or the reverse.

use vstd::prelude::*;
use vstd::relations::{sorted_by, total_ordering};
use vstd::seq_lib::{
    group_to_multiset_ensures, lemma_sorted_unique, to_multiset_build, to_multiset_insert,
};
use vstd::utf8::{encode_utf8, encode_utf8_decode_utf8};

verus! {

/// Lexicographic order on byte sequences: a proper prefix comes first, and
/// otherwise the first byte that differs decides.
pub open spec fn bytes_le(a: Seq<u8>, b: Seq<u8>) -> bool
    decreases a.len(),
{
    if a.len() == 0 {
        true
    } else if b.len() == 0 {
        false
    } else if a[0] != b[0] {
        a[0] < b[0]
    } else {
        bytes_le(a.drop_first(), b.drop_first())
    }
}

/// The order of names: that of their UTF-8 bytes.
pub open spec fn name_le(a: Seq<char>, b: Seq<char>) -> bool {
    bytes_le(encode_utf8(a), encode_utf8(b))
}

/// `name_le` as a relation.
pub open spec fn name_order() -> spec_fn(Seq<char>, Seq<char>) -> bool {
    |a: Seq<char>, b: Seq<char>| name_le(a, b)
}

/// The text of each name.
pub open spec fn texts(names: Seq<String>) -> Seq<Seq<char>> {
    names.map_values(|s: String| s@)
}

/// What a listing of `names` is: the names ascending, reversed on demand.
pub open spec fn ordered(names: Seq<Seq<char>>, descending: bool) -> Seq<Seq<char>> {
    if descending {
        names.sort_by(name_order()).reverse()
    } else {
        names.sort_by(name_order())
    }
}

/// Every byte sequence is at most itself.
pub proof fn lemma_bytes_le_reflexive(a: Seq<u8>)
    ensures
        bytes_le(a, a),
    decreases a.len(),
{
    if a.len() > 0 {
        lemma_bytes_le_reflexive(a.drop_first());
    }
}

/// Of two byte sequences one is at most the other.
pub proof fn lemma_bytes_le_connected(a: Seq<u8>, b: Seq<u8>)
    ensures
        bytes_le(a, b) || bytes_le(b, a),
    decreases a.len(),
{
    if a.len() > 0 && b.len() > 0 && a[0] == b[0] {
        lemma_bytes_le_connected(a.drop_first(), b.drop_first());
    }
}

/// Two byte sequences that are each at most the other are equal.
pub proof fn lemma_bytes_le_antisymmetric(a: Seq<u8>, b: Seq<u8>)
    requires
        bytes_le(a, b),
        bytes_le(b, a),
    ensures
        a == b,
    decreases a.len(),
{
    if a.len() == 0 {
        assert(a =~= b);
    } else {
        lemma_bytes_le_antisymmetric(a.drop_first(), b.drop_first());
        assert(a =~= seq![a[0]] + a.drop_first());
        assert(b =~= seq![b[0]] + b.drop_first());
    }
}

/// The order of byte sequences carries over a middle one.
pub proof fn lemma_bytes_le_transitive(a: Seq<u8>, b: Seq<u8>, c: Seq<u8>)
    requires
        bytes_le(a, b),
        bytes_le(b, c),
    ensures
        bytes_le(a, c),
    decreases a.len(),
{
    if a.len() > 0 && a[0] == b[0] && b[0] == c[0] {
        lemma_bytes_le_transitive(a.drop_first(), b.drop_first(), c.drop_first());
    }
}

/// The order of names is total: reflexive, antisymmetric, transitive, and
/// any two names compare.
pub proof fn lemma_name_order_total()
    ensures
        total_ordering(name_order()),
{
    let r = name_order();
    assert forall|x: Seq<char>| #[trigger] r(x, x) by {
        lemma_bytes_le_reflexive(encode_utf8(x));
    }
    assert forall|x: Seq<char>, y: Seq<char>| #[trigger] r(x, y) && #[trigger] r(y, x) implies x
        == y by {
        lemma_bytes_le_antisymmetric(encode_utf8(x), encode_utf8(y));
        encode_utf8_decode_utf8(x);
        encode_utf8_decode_utf8(y);
    }
    assert forall|x: Seq<char>, y: Seq<char>, z: Seq<char>| #[trigger]
        r(x, y) && #[trigger] r(y, z) implies r(x, z) by {
        lemma_bytes_le_transitive(encode_utf8(x), encode_utf8(y), encode_utf8(z));
    }
    assert forall|x: Seq<char>, y: Seq<char>| #[trigger] r(x, y) || #[trigger] r(y, x) by {
        lemma_bytes_le_connected(encode_utf8(x), encode_utf8(y));
    }
}

/// A listing is fixed by its names: whatever is ascending and holds the
/// same names, each as often, is the ascending listing.
pub proof fn lemma_ascending_is_unique(names: Seq<Seq<char>>, listing: Seq<Seq<char>>)
    requires
        sorted_by(listing, name_order()),
        listing.to_multiset() == names.to_multiset(),
    ensures
        listing == ordered(names, false),
{
    lemma_name_order_total();
    names.lemma_sort_by_ensures(name_order());
    lemma_sorted_unique(listing, names.sort_by(name_order()), name_order());
}

/// The ascending listing is sorted and its reverse is the descending one;
/// both hold the names given, each as often as it was given.
pub proof fn lemma_descending_is_reverse(names: Seq<Seq<char>>)
    ensures
        sorted_by(ordered(names, false), name_order()),
        ordered(names, true) == ordered(names, false).reverse(),
        ordered(names, false) == ordered(names, true).reverse(),
        ordered(names, false).to_multiset() == names.to_multiset(),
        ordered(names, true).to_multiset() == names.to_multiset(),
{
    lemma_name_order_total();
    names.lemma_sort_by_ensures(name_order());
    let up = ordered(names, false);
    up.lemma_reverse_to_multiset();
    assert(up.reverse().reverse() =~= up);
}

/// Whether `a` comes before `b` or is equal to it.
pub fn names_in_order(a: &str, b: &str) -> (r: bool)
    ensures
        r == name_le(a@, b@),
{
    let x = a.as_bytes();
    let y = b.as_bytes();
    let mut i: usize = 0;
    proof {
        assert(x@.skip(0) =~= x@);
        assert(y@.skip(0) =~= y@);
    }
    while i < x.len() && i < y.len()
        invariant
            i <= x@.len(),
            i <= y@.len(),
            x@ == encode_utf8(a@),
            y@ == encode_utf8(b@),
            bytes_le(x@, y@) == bytes_le(x@.skip(i as int), y@.skip(i as int)),
        decreases x@.len() - i,
    {
        if x[i] != y[i] {
            return x[i] < y[i];
        }
        proof {
            assert(x@.skip(i as int).drop_first() =~= x@.skip(i + 1));
            assert(y@.skip(i as int).drop_first() =~= y@.skip(i + 1));
        }
        i += 1;
    }
    i >= x.len()
}

/// A place in an ascending listing at which `name` can stand: no name
/// before it is greater, none from it on is less. Found by halving.
fn insert_position(listing: &Vec<String>, name: &str) -> (pos: usize)
    requires
        sorted_by(texts(listing@), name_order()),
    ensures
        pos <= listing@.len(),
        forall|j: int| 0 <= j < pos ==> name_le(#[trigger] texts(listing@)[j], name@),
        forall|j: int| pos <= j < listing@.len() ==> name_le(name@, #[trigger] texts(listing@)[j]),
{
    let mut low: usize = 0;
    let mut high: usize = listing.len();
    while low < high
        invariant
            low <= high <= listing@.len(),
            sorted_by(texts(listing@), name_order()),
            forall|j: int| 0 <= j < low ==> name_le(#[trigger] texts(listing@)[j], name@),
            forall|j: int|
                high <= j < listing@.len() ==> name_le(name@, #[trigger] texts(listing@)[j]),
        decreases high - low,
    {
        let middle: usize = low + (high - low) / 2;
        let ghost at = texts(listing@)[middle as int];
        if names_in_order(listing[middle].as_str(), name) {
            proof {
                assert forall|j: int| 0 <= j < middle + 1 implies name_le(
                    #[trigger] texts(listing@)[j],
                    name@,
                ) by {
                    let earlier = texts(listing@)[j];
                    if j < middle {
                        assert(name_order()(earlier, at));
                        lemma_bytes_le_transitive(
                            encode_utf8(earlier),
                            encode_utf8(at),
                            encode_utf8(name@),
                        );
                    }
                }
            }
            low = middle + 1;
        } else {
            proof {
                lemma_bytes_le_connected(encode_utf8(at), encode_utf8(name@));
                assert forall|j: int| middle <= j < listing@.len() implies name_le(
                    name@,
                    #[trigger] texts(listing@)[j],
                ) by {
                    let later = texts(listing@)[j];
                    if middle < j {
                        assert(name_order()(at, later));
                        lemma_bytes_le_transitive(
                            encode_utf8(name@),
                            encode_utf8(at),
                            encode_utf8(later),
                        );
                    }
                }
            }
            high = middle;
        }
    }
    low
}

/// Sorts names ascending by their bytes.
pub fn sort_names(names: Vec<String>) -> (out: Vec<String>)
    ensures
        texts(out@) == ordered(texts(names@), false),
        sorted_by(texts(out@), name_order()),
        texts(out@).to_multiset() == texts(names@).to_multiset(),
{
    let ghost all = texts(names@);
    let mut rest = names;
    let mut out: Vec<String> = Vec::new();
    proof {
        broadcast use group_to_multiset_ensures;

        assert(texts(out@) =~= Seq::empty());
        assert(texts(out@).to_multiset().add(texts(rest@).to_multiset()) =~= all.to_multiset());
    }
    loop
        invariant
            all == texts(names@),
            sorted_by(texts(out@), name_order()),
            texts(out@).to_multiset().add(texts(rest@).to_multiset()) == all.to_multiset(),
        decreases rest@.len(),
    {
        let ghost before = rest@;
        let ghost placed = out@;
        match rest.pop() {
            None => {
                proof {
                    broadcast use group_to_multiset_ensures;

                    assert(texts(rest@) =~= Seq::empty());
                    assert(texts(out@).to_multiset() =~= all.to_multiset());
                    lemma_ascending_is_unique(all, texts(out@));
                }
                return out;
            },
            Some(name) => {
                let pos = insert_position(&out, name.as_str());
                out.insert(pos, name);
                proof {
                    assert(texts(before) =~= texts(rest@).push(name@));
                    assert(texts(out@) =~= texts(placed).insert(pos as int, name@));
                    to_multiset_build(texts(rest@), name@);
                    to_multiset_insert(texts(placed), pos as int, name@);
                    assert(texts(out@).to_multiset().add(texts(rest@).to_multiset())
                        =~= all.to_multiset());
                    assert forall|i: int, j: int| 0 <= i < j < texts(out@).len() implies
                        #[trigger] name_order()(texts(out@)[i], texts(out@)[j]) by {
                        if j < pos {
                            assert(name_order()(texts(placed)[i], texts(placed)[j]));
                        } else if j == pos {
                            assert(name_le(texts(placed)[i], name@));
                        } else if i < pos {
                            assert(name_order()(texts(placed)[i], texts(placed)[j - 1]));
                        } else if i == pos {
                            assert(name_le(name@, texts(placed)[j - 1]));
                        } else {
                            assert(name_order()(texts(placed)[i - 1], texts(placed)[j - 1]));
                        }
                    }
                }
            },
        }
    }
}

/// Turns a listing round: the last name first.
pub fn reverse_names(names: Vec<String>) -> (out: Vec<String>)
    ensures
        out@ == names@.reverse(),
        texts(out@) == texts(names@).reverse(),
{
    let ghost all = names@;
    let mut rest = names;
    let mut out: Vec<String> = Vec::new();
    loop
        invariant
            all == names@,
            rest@.len() <= all.len(),
            rest@ == all.subrange(0, rest@.len() as int),
            out@.len() == all.len() - rest@.len(),
            forall|k: int| 0 <= k < out@.len() ==> out@[k] == all[all.len() - 1 - k],
        decreases rest@.len(),
    {
        match rest.pop() {
            None => {
                proof {
                    assert(out@ =~= all.reverse());
                    assert(texts(out@) =~= texts(all).reverse());
                }
                return out;
            },
            Some(name) => {
                out.push(name);
            },
        }
    }
}

/// Orders the names of a directory's entries for display: ascending by their
/// bytes, and the exact reverse of that when `sort_descending` is set.
pub fn list_files(names: Vec<String>, sort_descending: bool) -> (out: Vec<String>)
    ensures
        texts(out@) == ordered(texts(names@), sort_descending),
        texts(out@).to_multiset() == texts(names@).to_multiset(),
        out@.len() == names@.len(),
        sorted_by(
            if sort_descending {
                texts(out@).reverse()
            } else {
                texts(out@)
            },
            name_order(),
        ),
{
    proof {
        lemma_descending_is_reverse(texts(names@));
        texts(names@).to_multiset_ensures();
        ordered(texts(names@), sort_descending).to_multiset_ensures();
    }
    let sorted = sort_names(names);
    if sort_descending {
        reverse_names(sorted)
    } else {
        sorted
    }
}

} // verus!
