//! What adding one bundle to another comes to.

use crate::assembly_laws::{is_first_over, is_over};
use crate::bundle::{first_oversized, BundleView};
use crate::efuse::{EfuseMappingView, EfuseView};
use crate::fault::Fault;
use crate::image::ImageView;
use crate::laws::{
    law_last_image_counts, lemma_find_without_all, lemma_found, lemma_oversized,
};
use crate::merge::{
    arriving, blocks, first_blocking, first_known, first_same, images_of, keys, known, refilled,
    unmapped, with_efuse, with_efuses,
};
use crate::partition::MappingView;
use crate::pool::{find, latest, lemma_at, lemma_latest_distinct, lemma_without_all, without_all};
use vstd::prelude::*;
use vstd::string::*;

verus! {

/// What a mapping is found by: the name of its partition or, where it has none, of its
/// image.
pub open spec fn name_of(mapping: MappingView) -> Seq<char> {
    match mapping.partition {
        Some(partition) => partition.name,
        None => mapping.image->0.name,
    }
}

/// Whether mapping `i` is the first of those with its name.
pub open spec fn is_first_named(parts: Seq<MappingView>, i: int) -> bool {
    &&& 0 <= i < parts.len()
    &&& forall|j: int| 0 <= j < i ==> name_of(#[trigger] parts[j]) != name_of(parts[i])
}

/// Whether one of the mappings has this name.
pub open spec fn has_named(parts: Seq<MappingView>, name: Seq<char>) -> bool {
    exists|i: int| 0 <= i < parts.len() && name_of(#[trigger] parts[i]) == name
}

/// Whether mapping `k` has the last image with this name.
pub open spec fn brings(parts: Seq<MappingView>, name: Seq<char>, k: int) -> bool {
    &&& 0 <= k < parts.len()
    &&& parts[k].image is Some
    &&& parts[k].image->0.name == name
    &&& forall|l: int|
        k < l < parts.len() ==> !((#[trigger] parts[l]).image is Some && parts[l].image->0.name
            == name)
}

/// Whether an image of `others` goes to mapping `i`: one of its name, where no earlier
/// mapping has that name.
pub open spec fn is_met(parts: Seq<MappingView>, others: Seq<MappingView>, i: int) -> bool {
    &&& is_first_named(parts, i)
    &&& exists|k: int| #[trigger] brings(others, name_of(parts[i]), k)
}

/// Whether mapping `i` has an image already, and one of `others` goes there.
pub open spec fn is_in_the_way(
    parts: Seq<MappingView>,
    others: Seq<MappingView>,
    i: int,
) -> bool {
    is_met(parts, others, i) && parts[i].image is Some
}

/// Whether `after` are the mappings with the images of `others` at those of the first
/// `count` where one goes, and all else as it was.
pub open spec fn are_refilled(
    after: Seq<MappingView>,
    parts: Seq<MappingView>,
    others: Seq<MappingView>,
    count: int,
) -> bool {
    &&& after.len() == parts.len()
    &&& forall|i: int|
        0 <= i < parts.len() ==> {
            &&& (#[trigger] after[i]).partition == parts[i].partition
            &&& i < count && is_met(parts, others, i) ==> forall|k: int| #[trigger]
                brings(others, name_of(parts[i]), k) ==> after[i].image == others[k].image
            &&& !(i < count && is_met(parts, others, i)) ==> after[i].image == parts[i].image
        }
}

/// Whether mappings are those of the images of `others` that no mapping is for: the last
/// of each name, once, without a partition.
pub open spec fn are_left(
    mappings: Seq<MappingView>,
    parts: Seq<MappingView>,
    others: Seq<MappingView>,
) -> bool {
    &&& forall|i: int|
        0 <= i < mappings.len() ==> {
            &&& (#[trigger] mappings[i]).partition is None
            &&& mappings[i].image is Some
            &&& !has_named(parts, mappings[i].image->0.name)
            &&& exists|k: int| #[trigger]
                brings(others, mappings[i].image->0.name, k) && others[k].image
                    == mappings[i].image
        }
    &&& forall|i: int, j: int|
        0 <= i < j < mappings.len() ==> (#[trigger] mappings[i]).image->0.name != (
        #[trigger] mappings[j]).image->0.name
    &&& forall|name: Seq<char>, k: int| #[trigger]
        brings(others, name, k) && !has_named(parts, name) ==> exists|i: int|
            0 <= i < mappings.len() && (#[trigger] mappings[i]).image == others[k].image
}

/// Whether two efuses are burned to the same place: they are of one kind, and have one
/// name, or one block.
pub open spec fn is_same_place(a: EfuseView, b: EfuseView) -> bool {
    match (a, b) {
        (EfuseView::Param { name: x, .. }, EfuseView::Param { name: y, .. }) => x == y,
        (EfuseView::Key { block: x, .. }, EfuseView::Key { block: y, .. }) => x == y,
        (EfuseView::KeyDigest { block: x, .. }, EfuseView::KeyDigest { block: y, .. }) => x == y,
        _ => false,
    }
}

/// Whether efuse `k` is the last that is burned where `efuse` is.
pub open spec fn is_last_like(efuses: Seq<EfuseMappingView>, efuse: EfuseView, k: int) -> bool {
    &&& 0 <= k < efuses.len()
    &&& is_same_place(efuses[k].efuse, efuse)
    &&& forall|l: int| k < l < efuses.len() ==> !is_same_place((#[trigger] efuses[l]).efuse, efuse)
}

/// Whether one of the efuses is burned where `efuse` is.
pub open spec fn has_like(efuses: Seq<EfuseMappingView>, efuse: EfuseView) -> bool {
    exists|i: int| 0 <= i < efuses.len() && is_same_place((#[trigger] efuses[i]).efuse, efuse)
}

/// Whether efuse `i` is the first of those that are burned to its place.
pub open spec fn is_first_like(efuses: Seq<EfuseMappingView>, i: int) -> bool {
    &&& 0 <= i < efuses.len()
    &&& forall|j: int|
        0 <= j < i ==> !is_same_place((#[trigger] efuses[j]).efuse, efuses[i].efuse)
}

/// Whether efuse `i`, which was there, is the last of `others` for its place, where it was
/// the first for it and there is one, or else as it was.
pub open spec fn is_own(
    after: Seq<EfuseMappingView>,
    efuses: Seq<EfuseMappingView>,
    others: Seq<EfuseMappingView>,
    i: int,
) -> bool {
    if is_first_like(efuses, i) && has_like(others, efuses[i].efuse) {
        exists|k: int| #[trigger]
            is_last_like(others, efuses[i].efuse, k) && after[i] == others[k]
    } else {
        after[i] == efuses[i]
    }
}

/// Whether efuse `i` is the last of `others` for its place, for which there was none.
pub open spec fn is_new(
    after: Seq<EfuseMappingView>,
    efuses: Seq<EfuseMappingView>,
    others: Seq<EfuseMappingView>,
    i: int,
) -> bool {
    &&& !has_like(efuses, after[i].efuse)
    &&& exists|k: int| #[trigger] is_last_like(others, after[i].efuse, k) && after[i] == others[k]
}

/// Whether efuses `i` and `j` are for two places, the first of which came first among
/// `others`.
pub open spec fn are_in_order(
    after: Seq<EfuseMappingView>,
    others: Seq<EfuseMappingView>,
    i: int,
    j: int,
) -> bool {
    &&& !is_same_place(after[i].efuse, after[j].efuse)
    &&& exists|k: int|
        {
            &&& 0 <= k < others.len()
            &&& is_same_place((#[trigger] others[k]).efuse, after[i].efuse)
            &&& forall|l: int|
                0 <= l <= k ==> !is_same_place((#[trigger] others[l]).efuse, after[j].efuse)
        }
}

/// Whether `after` are the efuses with all of `others`: the last of those for each place
/// in the place of the first that was there, or behind all that were there, in their order.
pub open spec fn are_joined(
    after: Seq<EfuseMappingView>,
    efuses: Seq<EfuseMappingView>,
    others: Seq<EfuseMappingView>,
) -> bool {
    &&& after.len() >= efuses.len()
    &&& forall|i: int| 0 <= i < efuses.len() ==> #[trigger] is_own(after, efuses, others, i)
    &&& forall|i: int|
        efuses.len() <= i < after.len() ==> #[trigger] is_new(after, efuses, others, i)
    &&& forall|i: int, j: int|
        efuses.len() <= i < j < after.len() ==> #[trigger] are_in_order(after, others, i, j)
    &&& forall|k: int| 0 <= k < others.len() ==> has_like(after, (#[trigger] others[k]).efuse)
}

/// What adding `other` to `bundle` comes to.
pub open spec fn is_added(
    after: BundleView,
    result: Result<(), Fault<Seq<char>>>,
    bundle: BundleView,
    other: BundleView,
    overwrite: bool,
) -> bool {
    let count = bundle.parts.len() as int;
    let in_the_way = exists|i: int| #[trigger] is_in_the_way(bundle.parts, other.parts, i);
    let known_efuse = exists|j: int|
        0 <= j < other.efuses.len() && has_like(bundle.efuses, (#[trigger] other.efuses[j]).efuse);
    if bundle.params != other.params {
        &&& after == bundle
        &&& result == Err::<(), Fault<Seq<char>>>(Fault::ParamsDiffer)
    } else if !overwrite && in_the_way {
        exists|i: int|
            {
                &&& #[trigger] is_in_the_way(bundle.parts, other.parts, i)
                &&& forall|j: int|
                    0 <= j < i ==> !#[trigger] is_in_the_way(bundle.parts, other.parts, j)
                &&& result == Err::<(), Fault<Seq<char>>>(
                    Fault::ImageExists { name: name_of(bundle.parts[i]) },
                )
                &&& are_refilled(after.parts, bundle.parts, other.parts, i)
                &&& after.name == bundle.name
                &&& after.params == bundle.params
                &&& after.efuses == bundle.efuses
            }
    } else if !overwrite && known_efuse {
        exists|j: int|
            {
                &&& 0 <= j < other.efuses.len()
                &&& has_like(bundle.efuses, (#[trigger] other.efuses[j]).efuse)
                &&& forall|k: int|
                    0 <= k < j ==> !has_like(bundle.efuses, (#[trigger] other.efuses[k]).efuse)
                &&& result == Err::<(), Fault<Seq<char>>>(
                    Fault::EfuseExists { efuse: other.efuses[j].efuse.spec_text() },
                )
                &&& are_refilled(after.parts, bundle.parts, other.parts, count)
                &&& after.name == bundle.name
                &&& after.params == bundle.params
                &&& after.efuses == bundle.efuses
            }
    } else {
        &&& after.name == bundle.name + "+"@ + other.name
        &&& after.params == bundle.params
        &&& after.parts.len() >= count
        &&& are_refilled(after.parts.take(count), bundle.parts, other.parts, count)
        &&& are_left(after.parts.skip(count), bundle.parts, other.parts)
        &&& are_joined(after.efuses, bundle.efuses, other.efuses)
        &&& match result {
            Ok(()) => forall|i: int|
                0 <= i < after.parts.len() ==> !is_over(#[trigger] after.parts[i]),
            Err(fault) => is_first_over(after.parts, fault),
        }
    }
}

/// Looking for a name among the images of mappings finds the last that has it.
proof fn lemma_brings(parts: Seq<MappingView>, name: Seq<char>)
    ensures
        match find(images_of(parts), name) {
            Some(image) => exists|k: int| #[trigger]
                brings(parts, name, k) && parts[k].image == Some(image),
            None => forall|k: int|
                0 <= k < parts.len() ==> !((#[trigger] parts[k]).image is Some
                    && parts[k].image->0.name == name),
        },
    decreases parts.len(),
{
    if parts.len() > 0 {
        let head = parts.drop_last();
        lemma_brings(head, name);
        if let Some(image) = parts.last().image {
            assert(images_of(head).push(image).drop_last() =~= images_of(head));
        }
        if parts.last().image is Some && parts.last().image->0.name == name {
            assert(brings(parts, name, parts.len() - 1));
        } else {
            assert(find(images_of(parts), name) == find(images_of(head), name));
            if let Some(image) = find(images_of(head), name) {
                let k = choose|k: int| #[trigger]
                    brings(head, name, k) && head[k].image == Some(image);
                assert(parts[k] == head[k]);
                assert forall|l: int| k < l < parts.len() implies !((
                #[trigger] parts[l]).image is Some && parts[l].image->0.name == name) by {
                    if l < head.len() {
                        assert(head[l] == parts[l]);
                    }
                }
                assert(brings(parts, name, k));
            } else {
                assert forall|k: int| 0 <= k < parts.len() implies !((
                #[trigger] parts[k]).image is Some && parts[k].image->0.name == name) by {
                    if k < head.len() {
                        assert(head[k] == parts[k]);
                    }
                }
            }
        }
    }
}

/// The last image of a name is the one that is found.
proof fn lemma_brought(parts: Seq<MappingView>, name: Seq<char>)
    ensures
        forall|k: int| #[trigger]
            brings(parts, name, k) ==> find(images_of(parts), name) == parts[k].image,
        find(images_of(parts), name) is Some <==> exists|k: int| #[trigger] brings(parts, name, k),
{
    lemma_brings(parts, name);
    assert forall|k: int| #[trigger] brings(parts, name, k) implies find(images_of(parts), name)
        == parts[k].image by {
        assert(parts[k].image is Some);
        let image = find(images_of(parts), name)->0;
        let l = choose|l: int| #[trigger] brings(parts, name, l) && parts[l].image == Some(image);
        if l < k {
            assert(parts[k].image is Some && parts[k].image->0.name == name);
        } else if k < l {
            assert(parts[l].image is Some && parts[l].image->0.name == name);
        }
    }
}

/// What arrives at a mapping is the last image of its name, where it is the first that
/// has it.
proof fn lemma_arriving(parts: Seq<MappingView>, others: Seq<MappingView>, i: int)
    requires
        0 <= i < parts.len(),
    ensures
        ({
            let found = arriving(parts, latest(images_of(others)), i);
            &&& found is Some <==> is_met(parts, others, i)
            &&& found is Some ==> forall|k: int| #[trigger]
                brings(others, name_of(parts[i]), k) ==> others[k].image == found
        }),
{
    let name = name_of(parts[i]);
    let names = keys(parts).take(i);
    assert(parts[i].key() == name);
    lemma_find_without_all(latest(images_of(others)), names, name);
    law_last_image_counts(images_of(others), name);
    lemma_brought(others, name);
    assert forall|j: int| 0 <= j < i implies #[trigger] names[j] == name_of(parts[j]) by {
        assert(keys(parts)[j] == parts[j].key());
    }
    if is_first_named(parts, i) {
        assert forall|j: int| 0 <= j < names.len() implies names[j] != name by {
            assert(name_of(parts[j]) != name);
        }
        assert(!names.contains(name));
    } else {
        let j = choose|j: int| 0 <= j < i && name_of(#[trigger] parts[j]) == name;
        assert(names[j] == name);
        assert(names.contains(name));
    }
}

proof fn lemma_refilled(parts: Seq<MappingView>, others: Seq<MappingView>, count: nat)
    ensures
        are_refilled(
            refilled(parts, latest(images_of(others)), count),
            parts,
            others,
            count as int,
        ),
{
    let pool = latest(images_of(others));
    let after = refilled(parts, pool, count);
    assert forall|i: int| 0 <= i < parts.len() implies {
        &&& (#[trigger] after[i]).partition == parts[i].partition
        &&& i < count && is_met(parts, others, i) ==> forall|k: int| #[trigger]
            brings(others, name_of(parts[i]), k) ==> after[i].image == others[k].image
        &&& !(i < count && is_met(parts, others, i)) ==> after[i].image == parts[i].image
    } by {
        lemma_arriving(parts, others, i);
    }
}

proof fn lemma_left(parts: Seq<MappingView>, others: Seq<MappingView>)
    ensures
        are_left(
            unmapped(without_all(latest(images_of(others)), keys(parts))),
            parts,
            others,
        ),
{
    let pool = latest(images_of(others));
    let names = keys(parts);
    let left = without_all(pool, names);
    let mappings = unmapped(left);
    lemma_latest_distinct(images_of(others));
    lemma_without_all(pool, names);
    assert forall|name: Seq<char>| #[trigger] has_named(parts, name) == names.contains(name) by {
        if has_named(parts, name) {
            let i = choose|i: int| 0 <= i < parts.len() && name_of(#[trigger] parts[i]) == name;
            assert(names[i] == parts[i].key());
        }
        if names.contains(name) {
            let i = choose|i: int| 0 <= i < names.len() && names[i] == name;
            assert(name_of(parts[i]) == name);
        }
    }
    assert forall|i: int| 0 <= i < mappings.len() implies {
        &&& (#[trigger] mappings[i]).partition is None
        &&& mappings[i].image is Some
        &&& !has_named(parts, mappings[i].image->0.name)
        &&& exists|k: int| #[trigger]
            brings(others, mappings[i].image->0.name, k) && others[k].image == mappings[i].image
    } by {
        let name = left[i].name;
        lemma_at(left, i);
        lemma_find_without_all(pool, names, name);
        law_last_image_counts(images_of(others), name);
        lemma_brings(others, name);
    }
    assert forall|i: int, j: int| 0 <= i < j < mappings.len() implies (
    #[trigger] mappings[i]).image->0.name != (#[trigger] mappings[j]).image->0.name by {
        assert(left[i].name != left[j].name);
    }
    assert forall|name: Seq<char>, k: int| #[trigger]
        brings(others, name, k) && !has_named(parts, name) implies exists|i: int|
        0 <= i < mappings.len() && (#[trigger] mappings[i]).image == others[k].image by {
        lemma_brought(others, name);
        law_last_image_counts(images_of(others), name);
        lemma_find_without_all(pool, names, name);
        lemma_found(left, name);
        let i = choose|i: int| 0 <= i < left.len() && left[i] == find(left, name)->0;
        assert(mappings[i].image == others[k].image);
    }
}

/// To be burned to the same place is an equivalence, and the one that is looked at.
proof fn lemma_same_place()
    ensures
        forall|a: EfuseView, b: EfuseView| #[trigger] is_same_place(a, b) == a.same_as(b),
        forall|a: EfuseView| #[trigger] is_same_place(a, a),
        forall|a: EfuseView, b: EfuseView| #[trigger] is_same_place(a, b) == is_same_place(b, a),
        forall|a: EfuseView, b: EfuseView, c: EfuseView| #[trigger]
            is_same_place(a, b) && #[trigger] is_same_place(b, c) ==> is_same_place(a, c),
{
}

/// The first efuse for a place, among the first ones.
proof fn lemma_place(efuses: Seq<EfuseMappingView>, efuse: EfuseMappingView, count: nat)
    requires
        count <= efuses.len(),
    ensures
        match first_same(efuses, efuse, count) {
            Some(i) => {
                &&& 0 <= i < count
                &&& is_same_place(efuses[i].efuse, efuse.efuse)
                &&& forall|j: int|
                    0 <= j < i ==> !is_same_place((#[trigger] efuses[j]).efuse, efuse.efuse)
            },
            None => forall|j: int|
                0 <= j < count ==> !is_same_place((#[trigger] efuses[j]).efuse, efuse.efuse),
        },
    decreases count,
{
    lemma_same_place();
    if count > 0 {
        lemma_place(efuses, efuse, (count - 1) as nat);
    }
}

/// Efuses among others are the same, before and after another one is put behind them.
proof fn lemma_last_like(
    others: Seq<EfuseMappingView>,
    last: EfuseMappingView,
    efuse: EfuseView,
)
    ensures
        is_same_place(last.efuse, efuse) ==> {
            &&& has_like(others.push(last), efuse)
            &&& is_last_like(others.push(last), efuse, others.len() as int)
        },
        !is_same_place(last.efuse, efuse) ==> {
            &&& has_like(others.push(last), efuse) <==> has_like(others, efuse)
            &&& forall|k: int| #[trigger]
                is_last_like(others, efuse, k) ==> is_last_like(others.push(last), efuse, k)
        },
{
    let all = others.push(last);
    assert(all[others.len() as int] == last);
    if !is_same_place(last.efuse, efuse) {
        if has_like(others, efuse) {
            let i = choose|i: int|
                0 <= i < others.len() && is_same_place((#[trigger] others[i]).efuse, efuse);
            assert(is_same_place(all[i].efuse, efuse));
        }
        if has_like(all, efuse) {
            let i = choose|i: int|
                0 <= i < all.len() && is_same_place((#[trigger] all[i]).efuse, efuse);
            assert(is_same_place(others[i].efuse, efuse));
        }
        assert forall|k: int| #[trigger] is_last_like(others, efuse, k) implies is_last_like(
            all,
            efuse,
            k,
        ) by {
            assert(all[k] == others[k]);
            assert forall|l: int| k < l < all.len() implies !is_same_place(
                (#[trigger] all[l]).efuse,
                efuse,
            ) by {
                if l < others.len() {
                    assert(!is_same_place(others[l].efuse, efuse));
                }
            }
        }
    }
}

/// Each efuse that was there keeps its place in the flow of others.
proof fn lemma_kept_places(
    before: Seq<EfuseMappingView>,
    efuses: Seq<EfuseMappingView>,
    others: Seq<EfuseMappingView>,
)
    requires
        are_joined(before, efuses, others),
    ensures
        forall|i: int|
            0 <= i < efuses.len() ==> is_same_place(
                (#[trigger] before[i]).efuse,
                efuses[i].efuse,
            ),
{
    lemma_same_place();
    assert forall|i: int| 0 <= i < efuses.len() implies is_same_place(
        (#[trigger] before[i]).efuse,
        efuses[i].efuse,
    ) by {
        assert(is_own(before, efuses, others, i));
    }
}

/// The efuses that were there, once another one is put among them.
proof fn lemma_joined_own(
    before: Seq<EfuseMappingView>,
    efuses: Seq<EfuseMappingView>,
    others: Seq<EfuseMappingView>,
    last: EfuseMappingView,
    i: int,
)
    requires
        are_joined(before, efuses, others),
        0 <= i < efuses.len(),
    ensures
        is_own(with_efuse(before, last), efuses, others.push(last), i),
{
    assert(is_own(before, efuses, others, i));
    lemma_same_place();
    lemma_kept_places(before, efuses, others);
    lemma_place(before, last, before.len());
    lemma_last_like(others, last, efuses[i].efuse);
    let after = with_efuse(before, last);
    let all = others.push(last);
    let place = first_same(before, last, before.len());
    assert(is_same_place(before[i].efuse, efuses[i].efuse));
    if place == Some(i) {
        assert(is_same_place(last.efuse, efuses[i].efuse));
        assert forall|j: int| 0 <= j < i implies !is_same_place(
            (#[trigger] efuses[j]).efuse,
            efuses[i].efuse,
        ) by {
            assert(!is_same_place(before[j].efuse, last.efuse));
            assert(is_same_place(before[j].efuse, efuses[j].efuse));
        }
        assert(is_first_like(efuses, i));
        assert(after[i] == all[others.len() as int]);
    } else {
        assert(after[i] == before[i]);
        if is_same_place(last.efuse, efuses[i].efuse) {
            assert(is_same_place(before[i].efuse, last.efuse));
            let p = place->0;
            assert(p < i);
            assert(is_same_place(before[p].efuse, efuses[p].efuse));
            assert(is_same_place(efuses[p].efuse, efuses[i].efuse));
            assert(!is_first_like(efuses, i));
        } else if is_first_like(efuses, i) && has_like(others, efuses[i].efuse) {
            let k = choose|k: int| #[trigger]
                is_last_like(others, efuses[i].efuse, k) && before[i] == others[k];
            assert(is_last_like(all, efuses[i].efuse, k));
            assert(all[k] == others[k]);
        }
    }
}

/// The efuses behind those that were there, once another one is put among them.
proof fn lemma_joined_new(
    before: Seq<EfuseMappingView>,
    efuses: Seq<EfuseMappingView>,
    others: Seq<EfuseMappingView>,
    last: EfuseMappingView,
    i: int,
)
    requires
        are_joined(before, efuses, others),
        efuses.len() <= i < with_efuse(before, last).len(),
    ensures
        is_new(with_efuse(before, last), efuses, others.push(last), i),
        i < before.len() ==> is_same_place(with_efuse(before, last)[i].efuse, before[i].efuse),
{
    assert(i < before.len() ==> is_new(before, efuses, others, i));
    lemma_same_place();
    lemma_kept_places(before, efuses, others);
    lemma_place(before, last, before.len());
    let after = with_efuse(before, last);
    let all = others.push(last);
    let place = first_same(before, last, before.len());
    lemma_last_like(others, last, after[i].efuse);
    assert(all[others.len() as int] == last);
    if place == Some(i) {
        assert(after[i] == last);
        if has_like(efuses, last.efuse) {
            let j = choose|j: int|
                0 <= j < efuses.len() && is_same_place((#[trigger] efuses[j]).efuse, last.efuse);
            assert(is_same_place(before[j].efuse, efuses[j].efuse));
        }
    } else if i < before.len() {
        assert(after[i] == before[i]);
        if is_same_place(last.efuse, before[i].efuse) {
            assert(is_same_place(before[i].efuse, last.efuse));
            let p = place->0;
            assert(p < i);
            if p < efuses.len() {
                assert(is_same_place(before[p].efuse, efuses[p].efuse));
                assert(is_same_place(efuses[p].efuse, before[i].efuse));
                assert(has_like(efuses, before[i].efuse));
            } else {
                assert(are_in_order(before, others, p, i));
            }
            assert(false);
        }
        let k = choose|k: int| #[trigger]
            is_last_like(others, before[i].efuse, k) && before[i] == others[k];
        assert(is_last_like(all, after[i].efuse, k));
        assert(all[k] == others[k]);
    } else {
        assert(place is None);
        assert(after[i] == last);
        if has_like(efuses, last.efuse) {
            let j = choose|j: int|
                0 <= j < efuses.len() && is_same_place((#[trigger] efuses[j]).efuse, last.efuse);
            assert(is_same_place(before[j].efuse, efuses[j].efuse));
            assert(is_same_place(before[j].efuse, last.efuse));
        }
    }
}

/// The order of the efuses behind those that were there, once another one is put among
/// them.
proof fn lemma_joined_order(
    before: Seq<EfuseMappingView>,
    efuses: Seq<EfuseMappingView>,
    others: Seq<EfuseMappingView>,
    last: EfuseMappingView,
    i: int,
    j: int,
)
    requires
        are_joined(before, efuses, others),
        efuses.len() <= i < j < with_efuse(before, last).len(),
    ensures
        are_in_order(with_efuse(before, last), others.push(last), i, j),
{
    lemma_same_place();
    lemma_place(before, last, before.len());
    lemma_joined_new(before, efuses, others, last, i);
    lemma_joined_new(before, efuses, others, last, j);
    let after = with_efuse(before, last);
    let all = others.push(last);
    assert(is_new(before, efuses, others, i));
    let k: int = if j < before.len() {
        assert(are_in_order(before, others, i, j));
        choose|k: int|
            {
                &&& 0 <= k < others.len()
                &&& is_same_place((#[trigger] others[k]).efuse, before[i].efuse)
                &&& forall|l: int|
                    0 <= l <= k ==> !is_same_place((#[trigger] others[l]).efuse, before[j].efuse)
            }
    } else {
        choose|k: int| #[trigger] is_last_like(others, before[i].efuse, k) && before[i] == others[k]
    };
    assert(all[k] == others[k]);
    assert(is_same_place(others[k].efuse, before[i].efuse));
    assert(is_same_place(after[i].efuse, before[i].efuse));
    assert forall|l: int| 0 <= l <= k implies !is_same_place(
        (#[trigger] all[l]).efuse,
        after[j].efuse,
    ) by {
        assert(all[l] == others[l]);
        if j < before.len() {
            assert(!is_same_place(others[l].efuse, before[j].efuse));
            assert(is_same_place(after[j].efuse, before[j].efuse));
        } else {
            assert(after[j] == last);
            assert(has_like(before, others[l].efuse));
            let m = choose|m: int|
                0 <= m < before.len() && is_same_place(
                    (#[trigger] before[m]).efuse,
                    others[l].efuse,
                );
            assert(!is_same_place(before[m].efuse, last.efuse));
        }
    }
    if j >= before.len() {
        assert(after[j] == last);
        assert(!is_same_place(before[i].efuse, last.efuse));
    }
}

/// Others are all among the efuses, once another one is put among them.
proof fn lemma_joined_all(
    before: Seq<EfuseMappingView>,
    efuses: Seq<EfuseMappingView>,
    others: Seq<EfuseMappingView>,
    last: EfuseMappingView,
    k: int,
)
    requires
        are_joined(before, efuses, others),
        0 <= k <= others.len(),
    ensures
        has_like(with_efuse(before, last), others.push(last)[k].efuse),
{
    lemma_same_place();
    lemma_place(before, last, before.len());
    let after = with_efuse(before, last);
    let place = first_same(before, last, before.len());
    if k < others.len() {
        assert(has_like(before, others[k].efuse));
        let m = choose|m: int|
            0 <= m < before.len() && is_same_place((#[trigger] before[m]).efuse, others[k].efuse);
        assert(is_same_place(after[m].efuse, before[m].efuse));
        assert(is_same_place(after[m].efuse, others[k].efuse));
    } else {
        match place {
            Some(p) => {
                assert(after[p] == last);
                assert(is_same_place(after[p].efuse, last.efuse));
            },
            None => {
                assert(after[before.len() as int] == last);
                assert(is_same_place(after[before.len() as int].efuse, last.efuse));
            },
        }
    }
}

/// Adding efuses one by one comes to what it should.
proof fn lemma_joined(efuses: Seq<EfuseMappingView>, others: Seq<EfuseMappingView>)
    ensures
        are_joined(with_efuses(efuses, others), efuses, others),
    decreases others.len(),
{
    if others.len() > 0 {
        let head = others.drop_last();
        let last = others.last();
        let before = with_efuses(efuses, head);
        let after = with_efuses(efuses, others);
        lemma_joined(efuses, head);
        assert(head.push(last) =~= others);
        lemma_place(before, last, before.len());
        assert forall|i: int| 0 <= i < efuses.len() implies #[trigger] is_own(
            after,
            efuses,
            others,
            i,
        ) by {
            lemma_joined_own(before, efuses, head, last, i);
        }
        assert forall|i: int| efuses.len() <= i < after.len() implies #[trigger] is_new(
            after,
            efuses,
            others,
            i,
        ) by {
            lemma_joined_new(before, efuses, head, last, i);
        }
        assert forall|i: int, j: int|
            efuses.len() <= i < j < after.len() implies #[trigger] are_in_order(
            after,
            others,
            i,
            j,
        ) by {
            lemma_joined_order(before, efuses, head, last, i, j);
        }
        assert forall|k: int| 0 <= k < others.len() implies has_like(
            after,
            (#[trigger] others[k]).efuse,
        ) by {
            lemma_joined_all(before, efuses, head, last, k);
        }
    } else {
        assert forall|i: int| 0 <= i < efuses.len() implies !has_like(
            others,
            (#[trigger] efuses[i]).efuse,
        ) by {}
    }
}

/// The first mapping that is in the way.
proof fn lemma_in_the_way(parts: Seq<MappingView>, others: Seq<MappingView>)
    ensures
        match first_blocking(parts, latest(images_of(others)), parts.len()) {
            Some(i) => {
                &&& is_in_the_way(parts, others, i)
                &&& 0 <= i < parts.len()
                &&& forall|j: int| 0 <= j < i ==> !#[trigger] is_in_the_way(parts, others, j)
            },
            None => forall|j: int| !#[trigger] is_in_the_way(parts, others, j),
        },
{
    let pool = latest(images_of(others));
    let first = first_blocking(parts, pool, parts.len());
    lemma_first_way(parts, pool, parts.len());
    assert forall|j: int| 0 <= j < parts.len() implies #[trigger] is_in_the_way(parts, others, j)
        == blocks(parts, pool, j) by {
        lemma_arriving(parts, others, j);
    }
}

proof fn lemma_first_way(parts: Seq<MappingView>, pool: Seq<ImageView>, count: nat)
    requires
        count <= parts.len(),
    ensures
        match first_blocking(parts, pool, count) {
            Some(i) => 0 <= i < count && blocks(parts, pool, i) && forall|j: int|
                0 <= j < i ==> !#[trigger] blocks(parts, pool, j),
            None => forall|j: int| 0 <= j < count ==> !#[trigger] blocks(parts, pool, j),
        },
    decreases count,
{
    if count > 0 {
        lemma_first_way(parts, pool, (count - 1) as nat);
    }
}

/// The first of the others whose efuse is known.
proof fn lemma_first_like(
    efuses: Seq<EfuseMappingView>,
    others: Seq<EfuseMappingView>,
    count: nat,
)
    requires
        count <= others.len(),
    ensures
        match first_known(efuses, others, count) {
            Some(j) => {
                &&& 0 <= j < count
                &&& has_like(efuses, others[j].efuse)
                &&& forall|k: int| 0 <= k < j ==> !has_like(efuses, (#[trigger] others[k]).efuse)
            },
            None => forall|k: int|
                0 <= k < count ==> !has_like(efuses, (#[trigger] others[k]).efuse),
        },
    decreases count,
{
    if count > 0 {
        lemma_first_like(efuses, others, (count - 1) as nat);
        lemma_same_place();
        let efuse = others[count - 1];
        if known(efuses, efuse) {
            let j = choose|j: int|
                0 <= j < efuses.len() && efuse.efuse.same_as((#[trigger] efuses[j]).efuse);
            assert(is_same_place(efuses[j].efuse, efuse.efuse));
        }
        if has_like(efuses, efuse.efuse) {
            let j = choose|j: int|
                0 <= j < efuses.len() && is_same_place((#[trigger] efuses[j]).efuse, efuse.efuse);
            assert(efuse.efuse.same_as(efuses[j].efuse));
        }
    }
}

/// A bundle is added as follows. Bundles with other parameters are refused, and nothing
/// else is refused for its parameters. The last image of each name goes to the first
/// mapping of that name, and the last efuse for each place to the first that is burned
/// there; what finds no mapping and no efuse is put behind all that was there. Without
/// overwriting, the first mapping with an image that another one is for is reported, or
/// else the first efuse that is there already. In the end every image has to have room.
pub proof fn law_add(bundle: BundleView, other: BundleView, overwrite: bool)
    ensures
        is_added(
            bundle.added(other, overwrite).0,
            bundle.added(other, overwrite).1,
            bundle,
            other,
            overwrite,
        ),
{
    let parts = bundle.parts;
    let count = parts.len() as int;
    let (after, result) = bundle.added(other, overwrite);
    if bundle.params == other.params {
        lemma_in_the_way(parts, other.parts);
        lemma_first_like(bundle.efuses, other.efuses, other.efuses.len());
        let pool = latest(images_of(other.parts));
        let blocking = first_blocking(parts, pool, parts.len());
        let again = first_known(bundle.efuses, other.efuses, other.efuses.len());
        if !overwrite && blocking is Some {
            lemma_refilled(parts, other.parts, blocking->0 as nat);
            assert(is_in_the_way(parts, other.parts, blocking->0));
        } else if !overwrite && again is Some {
            lemma_refilled(parts, other.parts, parts.len());
            assert(has_like(bundle.efuses, other.efuses[again->0].efuse));
        } else {
            lemma_refilled(parts, other.parts, parts.len());
            lemma_left(parts, other.parts);
            lemma_joined(bundle.efuses, other.efuses);
            assert(after.parts.take(count) =~= refilled(parts, pool, parts.len()));
            assert(after.parts.skip(count) =~= unmapped(without_all(pool, keys(parts))));
            lemma_oversized(after.parts, after.parts.len());
            assert forall|i: int| 0 <= i < after.parts.len() implies is_over(
                #[trigger] after.parts[i],
            ) == !after.parts[i].fits() by {}
            if result is Err {
                let i = first_oversized(after.parts, after.parts.len())->0;
                assert(is_over(after.parts[i]));
            }
        }
    }
}

/// Adding succeeds where it should: with equal parameters, if there is nothing in the way
/// or it may be overwritten, and every image has room afterwards. Different parameters are
/// reported if and only if they differ.
pub proof fn law_add_succeeds(bundle: BundleView, other: BundleView, overwrite: bool)
    ensures
        ({
            let (after, result) = bundle.added(other, overwrite);
            let free = {
                &&& forall|i: int| !#[trigger] is_in_the_way(bundle.parts, other.parts, i)
                &&& forall|j: int|
                    0 <= j < other.efuses.len() ==> !has_like(
                        bundle.efuses,
                        (#[trigger] other.efuses[j]).efuse,
                    )
            };
            let fits = forall|i: int|
                0 <= i < after.parts.len() ==> !is_over(#[trigger] after.parts[i]);
            &&& result == Err::<(), Fault<Seq<char>>>(Fault::ParamsDiffer) <==> bundle.params
                != other.params
            &&& result is Ok <==> bundle.params == other.params && (overwrite || free) && fits
        }),
{
    law_add(bundle, other, overwrite);
    let (after, result) = bundle.added(other, overwrite);
    if let Err(fault) = result {
        if is_first_over(after.parts, fault) {
            let i = choose|i: int|
                {
                    &&& 0 <= i < after.parts.len()
                    &&& is_over(#[trigger] after.parts[i])
                    &&& forall|j: int| 0 <= j < i ==> !is_over(#[trigger] after.parts[j])
                    &&& fault == (Fault::TooLarge {
                        image: after.parts[i].image->0.name,
                        partition: after.parts[i].partition->0.name,
                        image_len: after.parts[i].image->0.data.len() as usize,
                        part_len: after.parts[i].partition->0.size as usize,
                    })
                };
            assert(is_over(after.parts[i]));
        }
    }
}

} // verus!
