//! How a listing is sent: as a text, a photo or an album.

use vstd::prelude::*;

use crate::caption::{caption_text, format_caption};
use crate::daft::Listing;
use crate::detail::DetailExtras;
use crate::link::{is_url, url_parts};
use crate::routing::CommuteTimes;

verus! {

/// The number of images of a listing that are looked at.
pub const MAX_PHOTOS: usize = 3;

/// A photo of an album, with the caption if it carries it.
#[derive(Debug)]
pub struct AlbumPhoto {
    pub url: String,
    pub caption: Option<String>,
}

/// What is sent of a listing. Every caption is HTML.
#[derive(Debug)]
pub enum Post {
    Text { caption: String },
    Photo { url: String, caption: String },
    Album { photos: Vec<AlbumPhoto> },
}

/// What is sent of a listing.
#[verifier::ext_equal]
pub enum PostView {
    Text { caption: Seq<char> },
    Photo { url: Seq<char>, caption: Seq<char> },
    Album { photos: Seq<(Seq<char>, Option<Seq<char>>)> },
}

/// The addresses and captions of some photos.
pub open spec fn photo_views(photos: Seq<AlbumPhoto>) -> Seq<(Seq<char>, Option<Seq<char>>)> {
    photos.map_values(
        |p: AlbumPhoto|
            (
                p.url@,
                match p.caption {
                    Some(c) => Some(c@),
                    None => None,
                },
            ),
    )
}

impl View for Post {
    type V = PostView;

    open spec fn view(&self) -> PostView {
        match self {
            Post::Text { caption } => PostView::Text { caption: caption@ },
            Post::Photo { url, caption } => PostView::Photo { url: url@, caption: caption@ },
            Post::Album { photos } => PostView::Album { photos: photo_views(photos@) },
        }
    }
}

/// The photos of some images: those that have a web address. The first image
/// carries the caption.
pub open spec fn album_of(images: Seq<String>, caption: Seq<char>) -> Seq<
    (Seq<char>, Option<Seq<char>>),
>
    decreases images.len(),
{
    if images.len() == 0 {
        Seq::empty()
    } else {
        let front = album_of(images.drop_last(), caption);
        if url_parts(images.last()@) is Some {
            front.push(
                (
                    images.last()@,
                    if images.len() == 1 {
                        Some(caption)
                    } else {
                        None
                    },
                ),
            )
        } else {
            front
        }
    }
}

/// The images of a listing that are looked at.
pub open spec fn first_images(images: Seq<String>) -> Seq<String> {
    if images.len() > MAX_PHOTOS {
        images.take(MAX_PHOTOS as int)
    } else {
        images
    }
}

/// What is sent with a caption and images: a text where no image can be shown; a
/// photo of the first image where one can, and a text if that is another one; an
/// album where several can.
pub open spec fn post_view(images: Seq<String>, caption: Seq<char>) -> PostView {
    let photos = album_of(first_images(images), caption);
    if photos.len() == 0 {
        PostView::Text { caption }
    } else if photos.len() == 1 {
        if url_parts(images[0]@) is Some {
            PostView::Photo { url: images[0]@, caption }
        } else {
            PostView::Text { caption }
        }
    } else {
        PostView::Album { photos }
    }
}

/// The photos of the images of a listing that are looked at.
fn album(images: &Vec<String>, caption: &String) -> (r: Vec<AlbumPhoto>)
    ensures
        photo_views(r@) == album_of(first_images(images@), caption@),
{
    let n: usize = if images.len() > MAX_PHOTOS {
        MAX_PHOTOS
    } else {
        images.len()
    };
    let ghost firsts = first_images(images@);
    let mut photos: Vec<AlbumPhoto> = Vec::new();
    assert(photo_views(photos@) =~= album_of(firsts.take(0), caption@));
    for i in 0..n
        invariant
            n == firsts.len(),
            n <= images@.len(),
            forall|k: int| 0 <= k < n ==> #[trigger] firsts[k] == images@[k],
            photo_views(photos@) == album_of(firsts.take(i as int), caption@),
    {
        let ghost before = photos@;
        assert(firsts.take(i + 1).drop_last() =~= firsts.take(i as int));
        assert(firsts.take(i + 1).last() == images@[i as int]);
        if is_url(images[i].as_str()) {
            let own = if i == 0 {
                Some(caption.clone())
            } else {
                None
            };
            let photo = AlbumPhoto { url: images[i].clone(), caption: own };
            photos.push(photo);
            assert(photo_views(photos@) =~= photo_views(before).push(photo_views(photos@).last()));
        }
        assert(photo_views(photos@) =~= album_of(firsts.take(i + 1), caption@));
    }
    assert(firsts.take(n as int) =~= firsts);
    photos
}

/// What is sent with a caption and images.
pub fn post_with(images: &Vec<String>, caption: String) -> (r: Post)
    ensures
        r@ == post_view(images@, caption@),
{
    let photos = album(images, &caption);
    let ghost views = album_of(first_images(images@), caption@);
    assert(photos@.len() == views.len());
    if photos.len() == 0 {
        Post::Text { caption }
    } else if photos.len() == 1 {
        assert(images@.len() > 0);
        if is_url(images[0].as_str()) {
            Post::Photo { url: images[0].clone(), caption }
        } else {
            Post::Text { caption }
        }
    } else {
        Post::Album { photos }
    }
}

/// What is sent of a listing.
pub fn post_of(
    l: &Listing,
    extras: Option<&DetailExtras>,
    commute: Option<&CommuteTimes>,
) -> (r: Post)
    ensures
        r@ == post_view(
            l.images@,
            caption_text(
                *l,
                match extras {
                    Some(x) => Some(*x),
                    None => None,
                },
                match commute {
                    Some(c) => Some(*c),
                    None => None,
                },
            ),
        ),
{
    post_with(&l.images, format_caption(l, extras, commute))
}

/// An album has no more photos than images were looked at; each is one of those
/// and has a web address, and only the first photo may carry the caption.
pub proof fn law_album_shows_the_first_images(images: Seq<String>, caption: Seq<char>, k: int)
    requires
        0 <= k < album_of(images, caption).len(),
    ensures
        album_of(images, caption).len() <= images.len(),
        url_parts(album_of(images, caption)[k].0) is Some,
        exists|i: int|
            k <= i < images.len() && (#[trigger] images[i])@ == album_of(images, caption)[k].0,
        k > 0 ==> album_of(images, caption)[k].1 is None,
    decreases images.len(),
{
    if images.len() > 0 {
        let front = album_of(images.drop_last(), caption);
        lemma_album_is_no_longer(images.drop_last(), caption);
        if k < front.len() {
            law_album_shows_the_first_images(images.drop_last(), caption, k);
            let i = choose|i: int|
                k <= i < images.drop_last().len() && (#[trigger] images.drop_last()[i])@
                    == front[k].0;
            assert(images[i]@ == front[k].0);
        } else {
            assert(images[images.len() - 1]@ == album_of(images, caption)[k].0);
        }
    }
}

proof fn lemma_album_is_no_longer(images: Seq<String>, caption: Seq<char>)
    ensures
        album_of(images, caption).len() <= images.len(),
    decreases images.len(),
{
    if images.len() > 0 {
        lemma_album_is_no_longer(images.drop_last(), caption);
    }
}

/// Whether a caption is shown by what is sent.
pub open spec fn shows(post: PostView, caption: Seq<char>) -> bool {
    match post {
        PostView::Text { caption: c } => c == caption,
        PostView::Photo { caption: c, .. } => c == caption,
        PostView::Album { photos } => photos.len() > 0 && photos[0].1 == Some(caption),
    }
}

proof fn lemma_first_photo(images: Seq<String>, caption: Seq<char>)
    requires
        images.len() > 0,
        url_parts(images[0]@) is Some,
    ensures
        album_of(images, caption).len() > 0,
        album_of(images, caption)[0] == (images[0]@, Some(caption)),
    decreases images.len(),
{
    if images.len() > 1 {
        lemma_first_photo(images.drop_last(), caption);
    } else {
        assert(album_of(images.drop_last(), caption) =~= Seq::empty());
    }
}

/// The caption is shown where the first image has a web address, and where at
/// most one image can be shown.
pub proof fn law_caption_is_shown(images: Seq<String>, caption: Seq<char>)
    requires
        images.len() == 0 || url_parts(images[0]@) is Some || album_of(
            first_images(images),
            caption,
        ).len() <= 1,
    ensures
        shows(post_view(images, caption), caption),
{
    if images.len() > 0 && url_parts(images[0]@) is Some {
        lemma_first_photo(first_images(images), caption);
    }
}

/// No more photos are sent than images are looked at.
pub proof fn law_albums_are_small(images: Seq<String>, caption: Seq<char>)
    ensures
        post_view(images, caption) matches PostView::Album { photos } ==> 2 <= photos.len()
            <= MAX_PHOTOS,
{
    lemma_album_is_no_longer(first_images(images), caption);
}

/// Where the first three images of a listing have web addresses, they are what is
/// sent, in their order and with the caption on the first, however many images
/// follow.
pub proof fn law_first_three_images_are_sent(images: Seq<String>, caption: Seq<char>)
    requires
        images.len() >= 3,
        url_parts(images[0]@) is Some,
        url_parts(images[1]@) is Some,
        url_parts(images[2]@) is Some,
    ensures
        post_view(images, caption) == (PostView::Album {
            photos: seq![
                (images[0]@, Some(caption)),
                (images[1]@, None::<Seq<char>>),
                (images[2]@, None::<Seq<char>>),
            ],
        }),
{
    let firsts = first_images(images);
    assert(firsts =~= seq![images[0], images[1], images[2]]);
    lemma_album_of_three(images[0], images[1], images[2], caption);
}

/// The photos of three images: each that has a web address, in their order.
proof fn lemma_album_of_three(a: String, b: String, c: String, caption: Seq<char>)
    ensures
        album_of(seq![a, b, c], caption) == photo_of(a, Some(caption)) + photo_of(b, None)
            + photo_of(c, None),
        album_of(seq![a, b], caption) == photo_of(a, Some(caption)) + photo_of(b, None),
        album_of(seq![a], caption) == photo_of(a, Some(caption)),
        album_of(Seq::empty(), caption).len() == 0,
{
    let three = seq![a, b, c];
    let two = seq![a, b];
    let one = seq![a];
    assert(three.drop_last() =~= two);
    assert(two.drop_last() =~= one);
    assert(one.drop_last() =~= Seq::<String>::empty());
    assert(album_of(one.drop_last(), caption) =~= Seq::<(Seq<char>, Option<Seq<char>>)>::empty());
    assert(album_of(one, caption) =~= photo_of(a, Some(caption)));
    assert(album_of(two, caption) =~= photo_of(a, Some(caption)) + photo_of(b, None));
    assert(album_of(three, caption) =~= photo_of(a, Some(caption)) + photo_of(b, None) + photo_of(
        c,
        None,
    ));
}

/// The photo of an image, if it has a web address.
pub open spec fn photo_of(image: String, caption: Option<Seq<char>>) -> Seq<
    (Seq<char>, Option<Seq<char>>),
> {
    if url_parts(image@) is Some {
        seq![(image@, caption)]
    } else {
        Seq::empty()
    }
}

/// Images after the third do not count.
pub proof fn law_later_images_do_not_count(images: Seq<String>, caption: Seq<char>)
    requires
        images.len() > 3,
    ensures
        post_view(images, caption) == post_view(images.take(3), caption),
{
    assert(first_images(images) =~= first_images(images.take(3)));
    assert(images.take(3)[0] == images[0]);
}

/// Of up to three images, those with a web address are sent in their order, and
/// the first image alone carries the caption; with none, or with one that is not
/// the first, the caption is sent as a text, and with the first one alone as its
/// photo.
pub proof fn law_posts_show_the_images_with_addresses(
    a: String,
    b: String,
    c: String,
    caption: Seq<char>,
)
    ensures
        post_view(Seq::empty(), caption) == (PostView::Text { caption }),
        post_view(seq![a], caption) == (if url_parts(a@) is Some {
            PostView::Photo { url: a@, caption }
        } else {
            PostView::Text { caption }
        }),
        url_parts(a@) is Some && url_parts(b@) is Some ==> post_view(seq![a, b], caption) == (
        PostView::Album { photos: seq![(a@, Some(caption)), (b@, None::<Seq<char>>)] }),
        url_parts(a@) is Some && url_parts(b@) is None ==> post_view(seq![a, b], caption) == (
        PostView::Photo { url: a@, caption }),
        url_parts(a@) is None ==> post_view(seq![a, b], caption) == (PostView::Text { caption }),
        url_parts(a@) is Some && url_parts(b@) is None && url_parts(c@) is Some ==> post_view(
            seq![a, b, c],
            caption,
        ) == (PostView::Album { photos: seq![(a@, Some(caption)), (c@, None::<Seq<char>>)] }),
        url_parts(a@) is Some && url_parts(b@) is Some && url_parts(c@) is None ==> post_view(
            seq![a, b, c],
            caption,
        ) == (PostView::Album { photos: seq![(a@, Some(caption)), (b@, None::<Seq<char>>)] }),
        url_parts(a@) is None && url_parts(b@) is Some && url_parts(c@) is Some ==> post_view(
            seq![a, b, c],
            caption,
        ) == (PostView::Album {
            photos: seq![(b@, None::<Seq<char>>), (c@, None::<Seq<char>>)],
        }),
        url_parts(a@) is Some && url_parts(b@) is None && url_parts(c@) is None ==> post_view(
            seq![a, b, c],
            caption,
        ) == (PostView::Photo { url: a@, caption }),
        url_parts(a@) is None && (url_parts(b@) is None || url_parts(c@) is None) ==> post_view(
            seq![a, b, c],
            caption,
        ) == (PostView::Text { caption }),
{
    lemma_album_of_three(a, b, c, caption);
    let p = photo_of(a, Some(caption));
    let q = photo_of(b, None);
    let r = photo_of(c, None);
    let one = (a@, Some(caption));
    let two = (b@, None::<Seq<char>>);
    let three = (c@, None::<Seq<char>>);
    if url_parts(a@) is Some && url_parts(b@) is Some {
        assert(p + q =~= seq![one, two]);
        assert(p + q + r =~= seq![one, two] + r);
        assert(seq![one, two] + Seq::<(Seq<char>, Option<Seq<char>>)>::empty() =~= seq![one, two]);
    }
    if url_parts(a@) is Some && url_parts(b@) is None && url_parts(c@) is Some {
        assert(p + q + r =~= seq![one, three]);
    }
    if url_parts(a@) is None && url_parts(b@) is Some && url_parts(c@) is Some {
        assert(p + q + r =~= seq![two, three]);
    }
}

} // verus!
