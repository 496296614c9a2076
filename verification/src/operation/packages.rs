//! Sets of package names, kept as sorted lists.

use crate::text::{insert_sorted, strictly_sorted, texts};
use vstd::prelude::*;

verus! {

/// Puts every name of `packages` into the sorted list `into`.
pub fn gather_packages(into: &mut Vec<String>, packages: Vec<String>)
    requires
        strictly_sorted(texts(old(into)@)),
    ensures
        strictly_sorted(texts(final(into)@)),
        forall|name: Seq<char>|
            #![trigger texts(final(into)@).contains(name)]
            texts(final(into)@).contains(name) <==> texts(old(into)@).contains(name) || texts(
                packages@,
            ).contains(name),
{
    let ghost before = texts(into@);
    let ghost added = texts(packages@);
    let ghost list = packages@;
    for package in it: packages
        invariant
            it.seq() == list,
            added == texts(list),
            strictly_sorted(texts(into@)),
            forall|name: Seq<char>|
                #![trigger texts(into@).contains(name)]
                texts(into@).contains(name) <==> before.contains(name) || exists|j: int|
                    0 <= j < it.index() && #[trigger] added[j] == name,
    {
        let ghost k = it.index() as int;
        let ghost here = texts(into@);
        assert(package == list[k]);
        assert(added[k] == package@);
        insert_sorted(into, package);
        proof {
            assert forall|name: Seq<char>|
                #![trigger texts(into@).contains(name)]
                texts(into@).contains(name) <==> before.contains(name) || exists|j: int|
                    0 <= j < k + 1 && #[trigger] added[j] == name by {
                assert(texts(into@).contains(name) <==> here.contains(name) || name
                    == package@);
                if here.contains(name) && !before.contains(name) {
                    let j = choose|j: int| 0 <= j < k && #[trigger] added[j] == name;
                    assert(0 <= j < k + 1);
                }
                if exists|j: int| 0 <= j < k + 1 && #[trigger] added[j] == name {
                    let j = choose|j: int| 0 <= j < k + 1 && #[trigger] added[j] == name;
                    if j < k {
                        assert(here.contains(name));
                    }
                }
            }
        }
    }
    proof {
        assert forall|name: Seq<char>|
            texts(into@).contains(name) <==> before.contains(name) || added.contains(name) by {
            if added.contains(name) {
                let j = choose|j: int| 0 <= j < added.len() && added[j] == name;
                assert(added[j] == name);
            }
            if texts(into@).contains(name) && !before.contains(name) {
                let j = choose|j: int| 0 <= j < added.len() && #[trigger] added[j] == name;
                assert(added.contains(name));
            }
        }
    }
}

} // verus!
