//! The packages of the workspace.

use vstd::prelude::*;
use vstd::relations::sorted_by;
use vstd::seq_lib::group_to_multiset_ensures;
use vstd::seq_lib::lemma_sorted_unique;

use crate::xtask::text::is_le;
use crate::xtask::text::law_text_order_is_total;
use crate::xtask::text::text_le;
use crate::xtask::text::text_order;
use crate::xtask::text::texts;

verus! {

/// What tasks read of a package.
#[derive(Debug)]
pub struct Package {
    /// Its name.
    pub name: String,
    /// The names of its features.
    pub features: Vec<String>,
    /// The Rust version that it declares.
    pub rust_version: Option<String>,
}

impl Package {
    /// No two features have one name.
    pub open spec fn distinct_features(&self) -> bool {
        texts(self.features@).no_duplicates()
    }
}

/// The first of `packages` that is named mea, if there is one.
pub fn mea_package(packages: Vec<Package>) -> (package: Option<Package>)
    ensures
        match package {
            Some(p) => exists|i: int|
                #![trigger packages@[i]]
                0 <= i < packages@.len() && p == packages@[i] && packages@[i].name@ == "mea"@ && (
                forall|j: int| 0 <= j < i ==> (#[trigger] packages@[j]).name@ != "mea"@),
            None => forall|j: int|
                0 <= j < packages@.len() ==> (#[trigger] packages@[j]).name@ != "mea"@,
        },
{
    let ghost all = packages@;
    let mut list = packages;
    let mea: String = "mea".to_owned();
    let mut i: usize = 0;
    while i < list.len()
        invariant
            list@ == all,
            all == packages@,
            mea@ == "mea"@,
            i <= list.len(),
            forall|j: int| 0 <= j < i ==> (#[trigger] all[j]).name@ != "mea"@,
        decreases list.len() - i,
    {
        if list[i].name == mea {
            let package = list.swap_remove(i);
            assert(all[i as int] == package);
            return Some(package);
        }
        i = i + 1;
    }
    None
}

/// The names among `names` other than `default`, in order.
pub open spec fn feature_list(names: Seq<Seq<char>>) -> Seq<Seq<char>> {
    names.filter(|name: Seq<char>| name != "default"@).sort_by(text_order())
}

/// A feature list is sorted, and holds each name as often as it was given, but for `default`.
pub proof fn law_feature_list_is_sorted(names: Seq<Seq<char>>)
    ensures
        sorted_by(feature_list(names), text_order()),
        feature_list(names).to_multiset() == names.filter(
            |name: Seq<char>| name != "default"@,
        ).to_multiset(),
        !feature_list(names).contains("default"@),
        forall|name: Seq<char>| #[trigger]
            feature_list(names).contains(name) <==> names.contains(name) && name != "default"@,
{
    broadcast use group_to_multiset_ensures;

    let p = |name: Seq<char>| name != "default"@;
    let kept = names.filter(p);
    law_text_order_is_total();
    kept.lemma_sort_by_ensures(text_order());
    assert forall|name: Seq<char>| #[trigger] feature_list(names).contains(name) <==> names.contains(
        name,
    ) && name != "default"@ by {
        lemma_filter_contains(names, p, name);
        assert(feature_list(names).contains(name) <==> feature_list(names).to_multiset().count(name)
            > 0);
        assert(kept.contains(name) <==> kept.to_multiset().count(name) > 0);
    }
}

/// A filter keeps what meets its condition, and nothing else.
proof fn lemma_filter_contains(
    s: Seq<Seq<char>>,
    p: spec_fn(Seq<char>) -> bool,
    x: Seq<char>,
)
    ensures
        s.filter(p).contains(x) <==> s.contains(x) && p(x),
    decreases s.len(),
{
    reveal(Seq::filter);
    if s.len() > 0 {
        let rest = s.drop_last();
        lemma_filter_contains(rest, p, x);
        if s.contains(x) {
            let i = choose|i: int| 0 <= i < s.len() && s[i] == x;
            if i < rest.len() {
                assert(rest[i] == x);
            }
        }
        if rest.contains(x) {
            let i = choose|i: int| 0 <= i < rest.len() && rest[i] == x;
            assert(s[i] == x);
        }
        if p(s.last()) {
            let f = rest.filter(p);
            assert(s.filter(p) == f.push(s.last()));
            if f.contains(x) {
                let i = choose|i: int| 0 <= i < f.len() && f[i] == x;
                assert(f.push(s.last())[i] == x);
            }
            assert(f.push(s.last())[f.len() as int] == s.last());
            if f.push(s.last()).contains(x) && !f.contains(x) {
                let i = choose|i: int|
                    0 <= i < f.push(s.last()).len() && f.push(s.last())[i] == x;
                assert(i == f.len());
            }
        }
        assert(s[s.len() - 1] == s.last());
    }
}

/// A filter makes no duplicates.
proof fn lemma_filter_distinct(s: Seq<Seq<char>>, p: spec_fn(Seq<char>) -> bool)
    requires
        s.no_duplicates(),
    ensures
        s.filter(p).no_duplicates(),
    decreases s.len(),
{
    reveal(Seq::filter);
    if s.len() > 0 {
        let rest = s.drop_last();
        lemma_filter_distinct(rest, p);
        lemma_filter_contains(rest, p, s.last());
        let f = rest.filter(p);
        assert(!f.contains(s.last()));
        assert forall|i: int| 0 <= i < f.len() implies f[i] != s.last() by {
            assert(f.contains(f[i]));
        }
    }
}

/// The names of `list` stand in strictly ascending order.
pub open spec fn ascends(list: Seq<Seq<char>>) -> bool {
    forall|i: int, j: int|
        #![trigger list[i], list[j]]
        0 <= i < j < list.len() ==> text_le(list[i], list[j]) && list[i] != list[j]
}

/// The feature list of distinct names is strictly ascending, and holds each of them once, but for
/// `default`.
pub proof fn law_feature_list_ascends(names: Seq<Seq<char>>)
    requires
        names.no_duplicates(),
    ensures
        ascends(feature_list(names)),
        feature_list(names).no_duplicates(),
{
    let p = |name: Seq<char>| name != "default"@;
    let kept = names.filter(p);
    let list = feature_list(names);
    law_feature_list_is_sorted(names);
    lemma_filter_distinct(names, p);
    kept.lemma_multiset_has_no_duplicates();
    list.lemma_multiset_has_no_duplicates_conv();
    assert forall|i: int, j: int|
        #![trigger list[i], list[j]]
        0 <= i < j < list.len() implies text_le(list[i], list[j]) && list[i] != list[j] by {
        assert(text_order()(list[i], list[j]));
    }
}

/// Puts `name` into its place among the names of `sorted`.
fn insert_sorted(sorted: &mut Vec<String>, name: String)
    requires
        sorted_by(texts(old(sorted)@), text_order()),
    ensures
        sorted_by(texts(final(sorted)@), text_order()),
        texts(final(sorted)@).to_multiset() == texts(old(sorted)@).to_multiset().insert(name@),
{
    let ghost before = texts(sorted@);
    let ghost x = name@;
    proof {
        law_text_order_is_total();
    }
    let mut i: usize = sorted.len();
    while i > 0 && !is_le(sorted[i - 1].as_str(), name.as_str())
        invariant
            i <= sorted.len(),
            before == texts(sorted@),
            x == name@,
            forall|j: int| i <= j < before.len() ==> !#[trigger] text_order()(before[j], x),
        decreases i,
    {
        i = i - 1;
    }
    sorted.insert(i, name);
    proof {
        broadcast use group_to_multiset_ensures;

        let after = texts(sorted@);
        assert(after =~= before.insert(i as int, x));
        assert(after.remove(i as int) =~= before);
        assert(after.to_multiset() =~= before.to_multiset().insert(x));
        let le = text_order();
        assert forall|a: int, b: int| 0 <= a < b < after.len() implies #[trigger] le(
            after[a],
            after[b],
        ) by {
            if a == i {
                assert(after[b] == before[b - 1]);
                assert(le(x, before[b - 1]) || le(before[b - 1], x));
            } else if b == i {
                assert(after[a] == before[a]);
                assert(le(before[i - 1], x));
                if a < i - 1 {
                    assert(le(before[a], before[i - 1]));
                }
            } else {
                let c = if a < i { a } else { a - 1 };
                let d = if b < i { b } else { b - 1 };
                assert(after[a] == before[c] && after[b] == before[d]);
                assert(le(before[c], before[d]));
            }
        }
    }
}

/// The features of `package` other than `default`, in order.
pub fn mea_features(package: &Package) -> (features: Vec<String>)
    ensures
        texts(features@) == feature_list(texts(package.features@)),
        package.distinct_features() ==> ascends(texts(features@)),
{
    let ghost names = texts(package.features@);
    let ghost p = |name: Seq<char>| name != "default"@;
    let default: String = "default".to_owned();
    let mut features: Vec<String> = Vec::new();
    let mut i: usize = 0;
    proof {
        assert(names.take(0).filter(p) =~= Seq::empty()) by {
            reveal(Seq::filter);
        }
        assert(texts(features@) =~= Seq::empty());
    }
    while i < package.features.len()
        invariant
            i <= package.features.len(),
            names == texts(package.features@),
            default@ == "default"@,
            p == (|name: Seq<char>| name != "default"@),
            sorted_by(texts(features@), text_order()),
            texts(features@).to_multiset() == names.take(i as int).filter(p).to_multiset(),
        decreases package.features.len() - i,
    {
        let ghost kept = names.take(i as int).filter(p);
        proof {
            broadcast use group_to_multiset_ensures;

            reveal(Seq::filter);
            assert(names.take(i + 1).drop_last() =~= names.take(i as int));
            assert(names.take(i + 1).last() == names[i as int]);
            assert(kept.push(names[i as int]).to_multiset() =~= kept.to_multiset().insert(
                names[i as int],
            ));
        }
        if package.features[i] != default {
            insert_sorted(&mut features, package.features[i].clone());
        }
        i = i + 1;
    }
    proof {
        assert(names.take(i as int) =~= names);
        law_feature_list_is_sorted(names);
        law_text_order_is_total();
        lemma_sorted_unique(texts(features@), feature_list(names), text_order());
        if package.distinct_features() {
            law_feature_list_ascends(names);
        }
    }
    features
}

} // verus!
