//! Adding the images and efuses of one bundle to another.

use crate::bundle::{efuse_views, mapping_views, size_fault, Bundle, BundleView};
use crate::efuse::{EfuseMapping, EfuseMappingView};
use crate::fault::{BundleError, Fault};
use crate::image::{Image, ImageView};
use crate::partition::{MappingView, PartitionMapping};
use crate::pool::{collect, distinct, find, image_views, latest, take, without_all};
use vstd::prelude::*;
use vstd::string::*;

verus! {

/// The images of mappings, in their order.
pub open spec fn images_of(parts: Seq<MappingView>) -> Seq<ImageView>
    decreases parts.len(),
{
    if parts.len() == 0 {
        Seq::empty()
    } else {
        let rest = images_of(parts.drop_last());
        match parts.last().image {
            Some(image) => rest.push(image),
            None => rest,
        }
    }
}

/// What mappings are found by.
pub open spec fn keys(parts: Seq<MappingView>) -> Seq<Seq<char>> {
    parts.map_values(|m: MappingView| m.key())
}

/// The image of `pool` that goes to mapping `i`: that of its key, unless an earlier
/// mapping with the same key has taken it.
pub open spec fn arriving(parts: Seq<MappingView>, pool: Seq<ImageView>, i: int) -> Option<
    ImageView,
> {
    find(without_all(pool, keys(parts).take(i)), parts[i].key())
}

/// Whether mapping `i` is in the way of an image of `pool`: it has one already.
pub open spec fn blocks(parts: Seq<MappingView>, pool: Seq<ImageView>, i: int) -> bool {
    arriving(parts, pool, i) is Some && parts[i].image is Some
}

/// The first of the first `count` mappings that is in the way.
pub open spec fn first_blocking(
    parts: Seq<MappingView>,
    pool: Seq<ImageView>,
    count: nat,
) -> Option<int>
    decreases count,
{
    if count == 0 {
        None
    } else {
        match first_blocking(parts, pool, (count - 1) as nat) {
            Some(i) => Some(i),
            None => if blocks(parts, pool, count - 1) {
                Some(count - 1)
            } else {
                None
            },
        }
    }
}

/// The mappings, the first `count` of them with the images of `pool` that go there.
pub open spec fn refilled(parts: Seq<MappingView>, pool: Seq<ImageView>, count: nat) -> Seq<
    MappingView,
> {
    Seq::new(
        parts.len(),
        |i: int|
            if i < count && arriving(parts, pool, i) is Some {
                MappingView { image: arriving(parts, pool, i), ..parts[i] }
            } else {
                parts[i]
            },
    )
}

/// Mappings of images that have no partition to go to.
pub open spec fn unmapped(images: Seq<ImageView>) -> Seq<MappingView> {
    images.map_values(|image: ImageView| MappingView { partition: None, image: Some(image) })
}

/// Whether an efuse is the same as one of `efuses`.
pub open spec fn known(efuses: Seq<EfuseMappingView>, efuse: EfuseMappingView) -> bool {
    exists|j: int| 0 <= j < efuses.len() && efuse.efuse.same_as((#[trigger] efuses[j]).efuse)
}

/// The first of the first `count` of `others` that is the same as one of `efuses`.
pub open spec fn first_known(
    efuses: Seq<EfuseMappingView>,
    others: Seq<EfuseMappingView>,
    count: nat,
) -> Option<int>
    decreases count,
{
    if count == 0 {
        None
    } else {
        match first_known(efuses, others, (count - 1) as nat) {
            Some(i) => Some(i),
            None => if known(efuses, others[count - 1]) {
                Some(count - 1)
            } else {
                None
            },
        }
    }
}

/// Where the first efuse stands that is the same as `efuse`, among the first `count`.
pub open spec fn first_same(
    efuses: Seq<EfuseMappingView>,
    efuse: EfuseMappingView,
    count: nat,
) -> Option<int>
    decreases count,
{
    if count == 0 {
        None
    } else {
        match first_same(efuses, efuse, (count - 1) as nat) {
            Some(i) => Some(i),
            None => if efuse.efuse.same_as(efuses[count - 1].efuse) {
                Some(count - 1)
            } else {
                None
            },
        }
    }
}

/// The efuses with `efuse` among them: in the place of the first that is the same, or
/// at the end.
pub open spec fn with_efuse(efuses: Seq<EfuseMappingView>, efuse: EfuseMappingView) -> Seq<
    EfuseMappingView,
> {
    match first_same(efuses, efuse, efuses.len()) {
        Some(i) => efuses.update(i, efuse),
        None => efuses.push(efuse),
    }
}

/// The efuses with all `others` among them.
pub open spec fn with_efuses(efuses: Seq<EfuseMappingView>, others: Seq<EfuseMappingView>) -> Seq<
    EfuseMappingView,
>
    decreases others.len(),
{
    if others.len() == 0 {
        efuses
    } else {
        with_efuse(with_efuses(efuses, others.drop_last()), others.last())
    }
}

impl BundleView {
    /// The bundle with everything that `other` holds: its images in the places that
    /// have their names, the rest of them without a place, and its efuses.
    pub open spec fn joined(self, other: BundleView) -> BundleView {
        let pool = latest(images_of(other.parts));
        BundleView {
            name: self.name + "+"@ + other.name,
            params: self.params,
            parts: refilled(self.parts, pool, self.parts.len()) + unmapped(
                without_all(pool, keys(self.parts)),
            ),
            efuses: with_efuses(self.efuses, other.efuses),
        }
    }

    /// What becomes of the bundle when `other` is added to it, and what is wrong with
    /// that. Where an image or an efuse is in the way, the mappings before it have
    /// their new images, and nothing else has changed; an image without room is found
    /// out when all is done.
    pub open spec fn added(self, other: BundleView, overwrite: bool) -> (
        BundleView,
        Result<(), Fault<Seq<char>>>,
    ) {
        let pool = latest(images_of(other.parts));
        let blocking = first_blocking(self.parts, pool, self.parts.len());
        let again = first_known(self.efuses, other.efuses, other.efuses.len());
        if self.params != other.params {
            (self, Err(Fault::ParamsDiffer))
        } else if !overwrite && blocking is Some {
            (
                BundleView {
                    parts: refilled(self.parts, pool, blocking->0 as nat),
                    ..self
                },
                Err(Fault::ImageExists { name: self.parts[blocking->0].key() }),
            )
        } else if !overwrite && again is Some {
            (
                BundleView { parts: refilled(self.parts, pool, self.parts.len()), ..self },
                Err(Fault::EfuseExists { efuse: other.efuses[again->0].efuse.spec_text() }),
            )
        } else {
            let joined = self.joined(other);
            (
                joined,
                match size_fault(joined.parts) {
                    Some(fault) => Err(fault),
                    None => Ok(()),
                },
            )
        }
    }
}

/// What came of a change, as contracts speak of it.
pub open spec fn unit_outcome(result: Result<(), BundleError>) -> Result<(), Fault<Seq<char>>> {
    match result {
        Ok(()) => Ok(()),
        Err(e) => Err(e@),
    }
}

/// The images of mappings.
fn into_images(mappings: Vec<PartitionMapping>) -> (images: Vec<Image>)
    ensures
        image_views(images@) == images_of(mapping_views(mappings@)),
{
    let ghost views = mapping_views(mappings@);
    let mut images: Vec<Image> = Vec::new();
    assert(image_views(images@) =~= images_of(views.take(0)));
    for mapping in it: mappings
        invariant
            views == mapping_views(it.seq()),
            image_views(images@) == images_of(views.take(it.index())),
    {
        let ghost next = views.take(it.index() + 1);
        let ghost before = image_views(images@);
        proof {
            assert(next.drop_last() =~= views.take(it.index()));
            assert(next.last() == mapping@);
        }
        if let Some(image) = mapping.image {
            images.push(image);
            assert(image_views(images@) =~= before.push(image@));
        }
    }
    assert(views.take(views.len() as int) =~= views);
    images
}

/// Whether an efuse is the same as one of `efuses`.
fn is_known(efuses: &Vec<EfuseMapping>, efuse: &EfuseMapping) -> (yes: bool)
    ensures
        yes == known(efuse_views(efuses@), efuse@),
{
    let ghost views = efuse_views(efuses@);
    let mut j: usize = 0;
    while j < efuses.len()
        invariant
            j <= efuses@.len(),
            views == efuse_views(efuses@),
            forall|k: int| 0 <= k < j ==> !efuse@.efuse.same_as((#[trigger] views[k]).efuse),
        decreases efuses@.len() - j,
    {
        assert(views[j as int] == efuses@[j as int]@);
        if efuse.efuse.is_same(&efuses[j].efuse) {
            return true;
        }
        j = j + 1;
    }
    false
}

/// Puts `efuse` among `efuses`.
fn put_efuse(efuses: &mut Vec<EfuseMapping>, efuse: EfuseMapping)
    ensures
        efuse_views(final(efuses)@) == with_efuse(efuse_views(old(efuses)@), efuse@),
{
    let ghost views = efuse_views(efuses@);
    let mut j: usize = 0;
    while j < efuses.len()
        invariant
            j <= efuses@.len(),
            *efuses == *old(efuses),
            views == efuse_views(efuses@),
            first_same(views, efuse@, j as nat) is None,
        decreases efuses@.len() - j,
    {
        assert(views[j as int] == efuses@[j as int]@);
        if efuse.efuse.is_same(&efuses[j].efuse) {
            proof {
                lemma_first_same(views, efuse@, j as int, views.len());
            }
            efuses[j] = efuse;
            assert(efuse_views(efuses@) =~= views.update(j as int, efuse@));
            return;
        }
        j = j + 1;
    }
    efuses.push(efuse);
    assert(efuse_views(efuses@) =~= views.push(efuse@));
}

proof fn lemma_first_same(
    efuses: Seq<EfuseMappingView>,
    efuse: EfuseMappingView,
    i: int,
    count: nat,
)
    requires
        0 <= i < count <= efuses.len(),
        first_same(efuses, efuse, i as nat) is None,
        efuse.efuse.same_as(efuses[i].efuse),
    ensures
        first_same(efuses, efuse, count) == Some(i),
    decreases count,
{
    if count > i + 1 {
        lemma_first_same(efuses, efuse, i, (count - 1) as nat);
    }
}

proof fn lemma_first_blocking(
    parts: Seq<MappingView>,
    pool: Seq<ImageView>,
    i: int,
    count: nat,
)
    requires
        0 <= i < count <= parts.len(),
        first_blocking(parts, pool, i as nat) is None,
        blocks(parts, pool, i),
    ensures
        first_blocking(parts, pool, count) == Some(i),
    decreases count,
{
    if count > i + 1 {
        lemma_first_blocking(parts, pool, i, (count - 1) as nat);
    }
}

proof fn lemma_first_known(
    efuses: Seq<EfuseMappingView>,
    others: Seq<EfuseMappingView>,
    i: int,
    count: nat,
)
    requires
        0 <= i < count <= others.len(),
        first_known(efuses, others, i as nat) is None,
        known(efuses, others[i]),
    ensures
        first_known(efuses, others, count) == Some(i),
    decreases count,
{
    if count > i + 1 {
        lemma_first_known(efuses, others, i, (count - 1) as nat);
    }
}

/// Appends mappings of images that have no partition to go to.
pub(crate) fn push_unmapped(mappings: &mut Vec<PartitionMapping>, images: Vec<Image>)
    ensures
        mapping_views(final(mappings)@) == mapping_views(old(mappings)@) + unmapped(
            image_views(images@),
        ),
{
    let ghost start = mapping_views(mappings@);
    let ghost views = image_views(images@);
    assert(mapping_views(mappings@) =~= start + unmapped(views.take(0)));
    for image in it: images
        invariant
            views == image_views(it.seq()),
            mapping_views(mappings@) == start + unmapped(views.take(it.index())),
    {
        let ghost before = mapping_views(mappings@);
        mappings.push(PartitionMapping { partition: None, image: Some(image) });
        proof {
            assert(mapping_views(mappings@) =~= before.push(
                MappingView { partition: None, image: Some(image@) },
            ));
            assert(unmapped(views.take(it.index() + 1)) =~= unmapped(
                views.take(it.index()),
            ).push(MappingView { partition: None, image: Some(image@) }));
            assert(start + unmapped(views.take(it.index() + 1)) =~= before.push(
                MappingView { partition: None, image: Some(image@) },
            ));
        }
    }
    assert(views.take(views.len() as int) =~= views);
}

impl PartitionMapping {
    /// What the mapping is found by.
    fn key(&self) -> (key: String)
        requires
            self@.wf(),
        ensures
            key@ == self@.key(),
    {
        match &self.partition {
            Some(partition) => partition.name.clone(),
            None => self.image.as_ref().unwrap().name.clone(),
        }
    }
}

impl Bundle {
    /// Add the images and efuses of another bundle into the current bundle.
    ///
    /// - `other`: The other bundle to merge into the current bundle
    /// - `overwrite`: Whether to overwrite the images and efuses of the current bundle
    ///   with the images and efuses of the other bundle
    pub fn add(&mut self, other: Self, overwrite: bool) -> (result: Result<(), BundleError>)
        requires
            old(self)@.params == other@.params ==> old(self)@.wf(),
        ensures
            final(self)@ == old(self)@.added(other@, overwrite).0,
            unit_outcome(result) == old(self)@.added(other@, overwrite).1,
    {
        let ghost start = self@;
        let ghost pool = latest(images_of(other@.parts));
        if self.params != other.params {
            return Err(Fault::ParamsDiffer);
        }
        let mut other_images = collect(into_images(other.parts_mapping));
        let mut i: usize = 0;
        proof {
            assert(self@.parts =~= refilled(start.parts, pool, 0));
            assert(keys(start.parts).take(0) =~= Seq::<Seq<char>>::empty());
        }
        while i < self.parts_mapping.len()
            invariant
                i <= self.parts_mapping@.len() == start.parts.len(),
                start.wf(),
                self@ == (BundleView { parts: refilled(start.parts, pool, i as nat), ..start }),
                image_views(other_images@) == without_all(pool, keys(start.parts).take(i as int)),
                distinct(image_views(other_images@)),
                pool == latest(images_of(other@.parts)),
                start.params == other.params,
                !overwrite ==> first_blocking(start.parts, pool, i as nat) is None,
                start == old(self)@,
            decreases self.parts_mapping@.len() - i,
        {
            let ghost before = self@.parts;
            let ghost left = image_views(other_images@);
            proof {
                assert(before[i as int] == start.parts[i as int]);
                assert(before[i as int] == self.parts_mapping@[i as int]@);
                assert(start.parts[i as int].wf());
                let next = keys(start.parts).take(i + 1);
                assert(next.drop_last() =~= keys(start.parts).take(i as int));
                assert(next.last() == start.parts[i as int].key());
            }
            let name = self.parts_mapping[i].key();
            if let Some(image) = take(&mut other_images, &name) {
                if self.parts_mapping[i].image.is_none() || overwrite {
                    let ghost arrived = image@;
                    self.parts_mapping[i].image = Some(image);
                    assert(self@.parts =~= before.update(
                        i as int,
                        MappingView { image: Some(arrived), ..before[i as int] },
                    ));
                } else {
                    proof {
                        lemma_first_blocking(start.parts, pool, i as int, start.parts.len());
                    }
                    return Err(Fault::ImageExists { name });
                }
            }
            assert(self@.parts =~= refilled(start.parts, pool, (i + 1) as nat));
            i = i + 1;
        }
        let other_efuses = other.efuse_mapping;
        if !overwrite {
            let mut j: usize = 0;
            while j < other_efuses.len()
                invariant
                    j <= other_efuses@.len(),
                    efuse_views(other_efuses@) == other@.efuses,
                    first_known(start.efuses, other@.efuses, j as nat) is None,
                    first_blocking(start.parts, pool, start.parts.len()) is None,
                    self@ == (BundleView {
                        parts: refilled(start.parts, pool, start.parts.len()),
                        ..start
                    }),
                    !overwrite,
                    pool == latest(images_of(other@.parts)),
                    start.params == other@.params,
                    start == old(self)@,
                decreases other_efuses@.len() - j,
            {
                assert(other@.efuses[j as int] == other_efuses@[j as int]@);
                if is_known(&self.efuse_mapping, &other_efuses[j]) {
                    proof {
                        lemma_first_known(
                            start.efuses,
                            other@.efuses,
                            j as int,
                            other@.efuses.len(),
                        );
                    }
                    return Err(Fault::EfuseExists { efuse: other_efuses[j].efuse.to_text() });
                }
                j = j + 1;
            }
        }
        assert(keys(start.parts).take(i as int) =~= keys(start.parts));
        push_unmapped(&mut self.parts_mapping, other_images);
        let ghost parts = self@.parts;
        assert(start.efuses =~= with_efuses(start.efuses, other@.efuses.take(0)));
        for efuse in it: other_efuses
            invariant
                efuse_views(it.seq()) == other@.efuses,
                self@ == (BundleView {
                    parts,
                    efuses: with_efuses(start.efuses, other@.efuses.take(it.index())),
                    ..start
                }),
        {
            proof {
                let next = other@.efuses.take(it.index() + 1);
                assert(next.drop_last() =~= other@.efuses.take(it.index()));
                assert(next.last() == efuse@);
            }
            put_efuse(&mut self.efuse_mapping, efuse);
        }
        assert(other@.efuses.take(other@.efuses.len() as int) =~= other@.efuses);
        self.name.append("+");
        self.name.append(other.name.as_str());
        self.check_part_sizes()
    }
}

} // verus!
