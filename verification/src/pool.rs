//! Images that are looked up by their names, at most one for each name.

use crate::image::{Image, ImageView};
use vstd::prelude::*;

verus! {

/// Images as contracts speak of them.
pub open spec fn image_views(images: Seq<Image>) -> Seq<ImageView> {
    images.map_values(|image: Image| image@)
}

/// The image named `name`.
pub open spec fn find(images: Seq<ImageView>, name: Seq<char>) -> Option<ImageView>
    decreases images.len(),
{
    if images.len() == 0 {
        None
    } else if images.last().name == name {
        Some(images.last())
    } else {
        find(images.drop_last(), name)
    }
}

/// The images that are not named `name`, in their order.
pub open spec fn without(images: Seq<ImageView>, name: Seq<char>) -> Seq<ImageView>
    decreases images.len(),
{
    if images.len() == 0 {
        images
    } else {
        let rest = without(images.drop_last(), name);
        if images.last().name == name {
            rest
        } else {
            rest.push(images.last())
        }
    }
}

/// The images that none of `names` names, in their order.
pub open spec fn without_all(images: Seq<ImageView>, names: Seq<Seq<char>>) -> Seq<ImageView>
    decreases names.len(),
{
    if names.len() == 0 {
        images
    } else {
        without(without_all(images, names.drop_last()), names.last())
    }
}

/// One image for each name, the last one that has it, ordered by where those stand.
pub open spec fn latest(images: Seq<ImageView>) -> Seq<ImageView>
    decreases images.len(),
{
    if images.len() == 0 {
        images
    } else {
        without(latest(images.drop_last()), images.last().name).push(images.last())
    }
}

/// No two images have one name.
pub open spec fn distinct(images: Seq<ImageView>) -> bool {
    forall|i: int, j: int| 0 <= i < j < images.len() ==> images[i].name != images[j].name
}

/// What is left has no image of that name, adds none, and keeps distinct names distinct.
pub proof fn lemma_without(images: Seq<ImageView>, name: Seq<char>)
    ensures
        without(images, name).len() <= images.len(),
        forall|i: int| 0 <= i < without(images, name).len() ==> {
            &&& (#[trigger] without(images, name)[i]).name != name
            &&& images.contains(without(images, name)[i])
        },
        distinct(images) ==> distinct(without(images, name)),
    decreases images.len(),
{
    if images.len() > 0 {
        let head = images.drop_last();
        lemma_without(head, name);
        let rest = without(head, name);
        assert forall|i: int| 0 <= i < without(images, name).len() implies {
            &&& (#[trigger] without(images, name)[i]).name != name
            &&& images.contains(without(images, name)[i])
        } by {
            if i < rest.len() {
                let k = choose|k: int| 0 <= k < head.len() && head[k] == rest[i];
                assert(images[k] == rest[i]);
            } else {
                assert(images[images.len() - 1] == images.last());
            }
        }
        if distinct(images) {
            assert(distinct(head));
            let all = without(images, name);
            assert forall|i: int, j: int| 0 <= i < j < all.len() implies all[i].name
                != all[j].name by {
                if j == rest.len() {
                    assert(head.contains(rest[i]));
                    let k = choose|k: int| 0 <= k < head.len() && head[k] == rest[i];
                    assert(images[k].name != images[images.len() - 1].name);
                }
            }
        }
    }
}

/// Leaving out a name that no image has changes nothing.
pub proof fn lemma_without_absent(images: Seq<ImageView>, name: Seq<char>)
    requires
        find(images, name) is None,
    ensures
        without(images, name) == images,
    decreases images.len(),
{
    if images.len() > 0 {
        lemma_without_absent(images.drop_last(), name);
        assert(images.drop_last().push(images.last()) =~= images);
    }
}

/// The images that are left have distinct names.
pub proof fn lemma_without_all(images: Seq<ImageView>, names: Seq<Seq<char>>)
    ensures
        distinct(images) ==> distinct(without_all(images, names)),
    decreases names.len(),
{
    if names.len() > 0 {
        lemma_without_all(images, names.drop_last());
        lemma_without(without_all(images, names.drop_last()), names.last());
    }
}

/// The latest images have distinct names.
pub proof fn lemma_latest_distinct(images: Seq<ImageView>)
    ensures
        distinct(latest(images)),
    decreases images.len(),
{
    if images.len() > 0 {
        lemma_latest_distinct(images.drop_last());
        lemma_without(latest(images.drop_last()), images.last().name);
    }
}

/// Among distinct names, the image at `index` is the one that its name finds, and
/// taking it away leaves the images without that name.
pub proof fn lemma_at(images: Seq<ImageView>, index: int)
    requires
        distinct(images),
        0 <= index < images.len(),
    ensures
        find(images, images[index].name) == Some(images[index]),
        images.remove(index) == without(images, images[index].name),
    decreases images.len(),
{
    let head = images.drop_last();
    let name = images[index].name;
    assert(distinct(head));
    if index == images.len() - 1 {
        assert forall|i: int| 0 <= i < head.len() implies head[i].name != name by {
            assert(images[i].name != images[index].name);
        }
        lemma_nowhere(head, name);
        lemma_without_absent(head, name);
        assert(images.remove(index) =~= head);
    } else {
        lemma_at(head, index);
        assert(images[index].name != images[images.len() - 1].name);
        assert(images.remove(index) =~= head.remove(index).push(images.last()));
    }
}

/// A name that no image has finds nothing.
proof fn lemma_nowhere(images: Seq<ImageView>, name: Seq<char>)
    requires
        forall|i: int| 0 <= i < images.len() ==> (#[trigger] images[i]).name != name,
    ensures
        find(images, name) is None,
    decreases images.len(),
{
    if images.len() > 0 {
        assert(images[images.len() - 1].name != name);
        lemma_nowhere(images.drop_last(), name);
    }
}

/// Where an image named `name` stands in the pool.
fn position(pool: &Vec<Image>, name: &String) -> (index: Option<usize>)
    ensures
        index matches Some(i) ==> i < pool@.len() && pool@[i as int].name@ == name@,
        index is None ==> forall|i: int|
            0 <= i < pool@.len() ==> (#[trigger] pool@[i]).name@ != name@,
{
    let mut i: usize = 0;
    while i < pool.len()
        invariant
            i <= pool@.len(),
            forall|j: int| 0 <= j < i ==> (#[trigger] pool@[j]).name@ != name@,
        decreases pool@.len() - i,
    {
        if pool[i].name.eq(name) {
            return Some(i);
        }
        i = i + 1;
    }
    None
}

/// Takes the image named `name` out of a pool with distinct names.
pub fn take(pool: &mut Vec<Image>, name: &String) -> (image: Option<Image>)
    requires
        distinct(image_views(old(pool)@)),
    ensures
        image is Some <==> find(image_views(old(pool)@), name@) is Some,
        image matches Some(found) ==> found@ == find(image_views(old(pool)@), name@)->0,
        image_views(final(pool)@) == without(image_views(old(pool)@), name@),
        distinct(image_views(final(pool)@)),
{
    let ghost before = image_views(pool@);
    proof {
        lemma_without(before, name@);
    }
    match position(pool, name) {
        Some(index) => {
            proof {
                lemma_at(before, index as int);
                assert(before.remove(index as int) =~= image_views(pool@.remove(index as int)));
            }
            Some(pool.remove(index))
        },
        None => {
            proof {
                assert forall|i: int| 0 <= i < before.len() implies (#[trigger] before[i]).name
                    != name@ by {
                    assert(pool@[i].name@ != name@);
                }
                lemma_nowhere(before, name@);
                lemma_without_absent(before, name@);
            }
            None
        },
    }
}

/// The pool of `images`: where two have one name, the later one stays.
pub fn collect(images: Vec<Image>) -> (pool: Vec<Image>)
    ensures
        image_views(pool@) == latest(image_views(images@)),
        distinct(image_views(pool@)),
{
    let ghost views = image_views(images@);
    let mut pool: Vec<Image> = Vec::new();
    assert(image_views(pool@) =~= latest(views.take(0)));
    for image in it: images
        invariant
            views == image_views(it.seq()),
            image_views(pool@) == latest(views.take(it.index())),
            distinct(image_views(pool@)),
    {
        let ghost next = views.take(it.index() + 1);
        proof {
            assert(next.drop_last() =~= views.take(it.index()));
            assert(next.last() == image@);
            lemma_latest_distinct(next);
        }
        let _ = take(&mut pool, &image.name);
        let ghost rest = image_views(pool@);
        pool.push(image);
        assert(image_views(pool@) =~= rest.push(image@));
    }
    assert(views.take(views.len() as int) =~= views);
    pool
}

} // verus!
