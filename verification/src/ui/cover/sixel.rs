//! Covers as sixel images.
//!
//! Images are decoded, resized and encoded apart from the user interface; a view only looks up
//! whether an image is ready, and writes it to the terminal.

use std::sync::Arc;

use vstd::prelude::*;

use crate::geometry::{div_up, max, min, Vec2};
use crate::text::{decimal, decimal_text, maybe_text, same_text};
use crate::ui::listview::{erasure, erasure_text};
use image::DynamicImage;

verus! {

/// Covers are at most this many pixels wide and high.
pub const MAX_COVER_PX: usize = 640;

/// Maximum number of encoded images kept in memory. The oldest are evicted first; an evicted image
/// is re-read cheaply from the cache on disk if needed again.
pub const MAX_CACHE_ENTRIES: usize = 256;

/// Keeps the image cache for those who cannot be handed it. It is set once.
pub fn set_shared<T>(kept: &mut Option<Arc<T>>, images: Arc<T>)
    ensures
        *final(kept) == match *old(kept) {
            Some(first) => Some(first),
            None => Some(images),
        },
{
    if kept.is_none() {
        *kept = Some(images);
    }
}

/// The image cache that was kept, if any.
pub fn shared<T>(kept: &Option<Arc<T>>) -> (images: Option<&Arc<T>>)
    ensures
        match images {
            Some(images) => *kept == Some(*images),
            None => *kept is None,
        },
{
    match kept {
        Some(images) => Some(images),
        None => None,
    }
}

/// Which image is meant: the address of a cover, and the size in pixels.
#[derive(Clone, Debug, PartialEq, Eq, Hash)]
pub struct CacheKey {
    pub url: String,
    pub width: usize,
    pub height: usize,
}

/// A [`CacheKey`] with its address as a sequence of characters.
pub ghost struct KeyView {
    pub url: Seq<char>,
    pub width: usize,
    pub height: usize,
}

impl View for CacheKey {
    type V = KeyView;

    open spec fn view(&self) -> KeyView {
        KeyView { url: self.url@, width: self.width, height: self.height }
    }
}

impl CacheKey {
    fn is_for(&self, url: &str, width: usize, height: usize) -> (yes: bool)
        ensures
            yes == (self@ == (KeyView { url: url@, width, height })),
    {
        self.width == width && self.height == height && same_text(self.url.as_str(), url)
    }

    fn copy(&self) -> (copy: CacheKey)
        ensures
            copy@ == self@,
    {
        CacheKey { url: self.url.clone(), width: self.width, height: self.height }
    }
}

/// Turns addresses of covers into encoded images of a requested size.
pub struct SixelImageCache {
    /// The images that are ready, the oldest first.
    cache: Vec<(CacheKey, String)>,
    /// The images that were asked for and are not settled yet.
    pending: Vec<CacheKey>,
    /// Those of them that no one has begun to encode.
    jobs: Vec<CacheKey>,
    /// Images of one color used to blank image slots, by their size.
    blanks: Vec<((usize, usize), String)>,
}

/// The position of the entry with a key, or the length where there is none.
pub open spec fn place_of(entries: Seq<(KeyView, Seq<char>)>, key: KeyView) -> int
    decreases entries.len(),
{
    if entries.len() == 0 || entries[0].0 == key {
        0
    } else {
        1 + place_of(entries.skip(1), key)
    }
}

/// The image under a key, if there is one.
pub open spec fn image_of(entries: Seq<(KeyView, Seq<char>)>, key: KeyView) -> Option<Seq<char>> {
    let at = place_of(entries, key);
    if at < entries.len() {
        Some(entries[at].1)
    } else {
        None
    }
}

/// Whether asking for an image puts it to the jobs: there is such an image, it is not ready, and it
/// was not asked for before.
pub open spec fn schedules(
    ready: Seq<(KeyView, Seq<char>)>,
    awaited: Seq<KeyView>,
    key: KeyView,
) -> bool {
    key.width > 0 && key.height > 0 && image_of(ready, key) is None && !awaited.contains(key)
}

/// The entries without as many of the oldest as it takes to keep to the limit.
pub open spec fn evicted(entries: Seq<(KeyView, Seq<char>)>) -> Seq<(KeyView, Seq<char>)> {
    entries.skip(max(0, entries.len() - MAX_CACHE_ENTRIES))
}

/// The entries after an image was put under a key: in place of the one that was there, or as the
/// newest.
pub open spec fn stored(
    entries: Seq<(KeyView, Seq<char>)>,
    key: KeyView,
    image: Seq<char>,
) -> Seq<(KeyView, Seq<char>)> {
    let at = place_of(entries, key);
    if at < entries.len() {
        evicted(entries.update(at, (key, image)))
    } else {
        evicted(entries.push((key, image)))
    }
}

/// The keys other than the given one.
pub open spec fn without(keys: Seq<KeyView>, key: KeyView) -> Seq<KeyView>
    decreases keys.len(),
{
    if keys.len() == 0 {
        keys
    } else if keys.last() == key {
        without(keys.drop_last(), key)
    } else {
        without(keys.drop_last(), key).push(keys.last())
    }
}

proof fn lemma_place_of(entries: Seq<(KeyView, Seq<char>)>, key: KeyView)
    ensures
        0 <= place_of(entries, key) <= entries.len(),
        forall|j: int| 0 <= j < place_of(entries, key) ==> (#[trigger] entries[j]).0 != key,
        place_of(entries, key) < entries.len() ==> entries[place_of(entries, key)].0 == key,
    decreases entries.len(),
{
    if entries.len() > 0 && entries[0].0 != key {
        let rest = entries.skip(1);
        lemma_place_of(rest, key);
        assert forall|j: int| 0 <= j < place_of(entries, key) implies (#[trigger] entries[j]).0
            != key by {
            if j > 0 {
                assert(rest[j - 1] == entries[j]);
            }
        }
    }
}

proof fn lemma_place_is(entries: Seq<(KeyView, Seq<char>)>, key: KeyView, at: int)
    requires
        0 <= at <= entries.len(),
        forall|j: int| 0 <= j < at ==> (#[trigger] entries[j]).0 != key,
        at < entries.len() ==> entries[at].0 == key,
    ensures
        place_of(entries, key) == at,
{
    lemma_place_of(entries, key);
    let place = place_of(entries, key);
    if place < at {
        assert(entries[place].0 != key);
    }
    if at < place {
        assert(entries[at].0 != key);
    }
}

/// Nothing is kept twice.
pub open spec fn distinct_keys(entries: Seq<(KeyView, Seq<char>)>) -> bool {
    forall|i: int, j: int|
        0 <= i < j < entries.len() ==> (#[trigger] entries[i]).0 != (#[trigger] entries[j]).0
}

impl SixelImageCache {
    /// The images that are ready, the oldest first.
    pub closed spec fn ready(self) -> Seq<(KeyView, Seq<char>)> {
        self.cache@.map_values(|e: (CacheKey, String)| (e.0@, e.1@))
    }

    /// The images that were asked for and are not settled yet.
    pub closed spec fn awaited(self) -> Seq<KeyView> {
        self.pending@.map_values(|key: CacheKey| key@)
    }

    /// Those of them that no one has begun to encode.
    pub closed spec fn queue(self) -> Seq<KeyView> {
        self.jobs@.map_values(|key: CacheKey| key@)
    }

    /// The blank images that are ready.
    pub closed spec fn blank_images(self) -> Seq<((usize, usize), Seq<char>)> {
        self.blanks@.map_values(|e: ((usize, usize), String)| (e.0, e.1@))
    }

    /// Nothing is kept twice, and no more than the limit. Blank images are black.
    pub open spec fn wf(self) -> bool {
        &&& self.ready().len() <= MAX_CACHE_ENTRIES
        &&& distinct_keys(self.ready())
        &&& forall|i: int|
            0 <= i < self.blank_images().len() ==> is_black(
                (#[trigger] self.blank_images()[i]).1,
                self.blank_images()[i].0,
            )
    }

    pub fn new() -> (images: SixelImageCache)
        ensures
            images.wf(),
            images.ready().len() == 0,
            images.awaited().len() == 0,
            images.queue().len() == 0,
            images.blank_images().len() == 0,
    {
        SixelImageCache {
            cache: Vec::new(),
            pending: Vec::new(),
            jobs: Vec::new(),
            blanks: Vec::new(),
        }
    }

    fn find(&self, url: &str, width: usize, height: usize) -> (at: usize)
        ensures
            at == place_of(self.ready(), KeyView { url: url@, width, height }),
            at <= self.cache@.len(),
    {
        let ghost key = KeyView { url: url@, width, height };
        let mut at: usize = 0;
        while at < self.cache.len()
            invariant
                at <= self.cache@.len(),
                key == (KeyView { url: url@, width, height }),
                forall|j: int| 0 <= j < at ==> (#[trigger] self.ready()[j]).0 != key,
            decreases self.cache@.len() - at,
        {
            assert(self.ready()[at as int].0 == self.cache@[at as int].0@);
            if self.cache[at].0.is_for(url, width, height) {
                proof {
                    lemma_place_is(self.ready(), key, at as int);
                }
                return at;
            }
            at += 1;
        }
        proof {
            lemma_place_is(self.ready(), key, at as int);
        }
        at
    }

    fn is_awaited(&self, url: &str, width: usize, height: usize) -> (yes: bool)
        ensures
            yes == self.awaited().contains(KeyView { url: url@, width, height }),
    {
        let ghost key = KeyView { url: url@, width, height };
        let mut at: usize = 0;
        while at < self.pending.len()
            invariant
                at <= self.pending@.len(),
                key == (KeyView { url: url@, width, height }),
                forall|j: int| 0 <= j < at ==> (#[trigger] self.awaited()[j]) != key,
            decreases self.pending@.len() - at,
        {
            assert(self.awaited()[at as int] == self.pending@[at as int]@);
            if self.pending[at].is_for(url, width, height) {
                return true;
            }
            at += 1;
        }
        false
    }

    /// The encoded image for `url` at `width`x`height` pixels if it is ready. Otherwise it is
    /// put to the jobs, once.
    pub fn get(&mut self, url: &str, width: usize, height: usize) -> (image: Option<String>)
        requires
            old(self).wf(),
        ensures
            final(self).wf(),
            final(self).ready() == old(self).ready(),
            final(self).blank_images() == old(self).blank_images(),
            ({
                let key = KeyView { url: url@, width, height };
                let scheduled = schedules(old(self).ready(), old(self).awaited(), key);
                &&& maybe_text(image) == if width == 0 || height == 0 {
                    None
                } else {
                    image_of(old(self).ready(), key)
                }
                &&& final(self).awaited() == if scheduled {
                    old(self).awaited().push(key)
                } else {
                    old(self).awaited()
                }
                &&& final(self).queue() == if scheduled {
                    old(self).queue().push(key)
                } else {
                    old(self).queue()
                }
            }),
    {
        if width == 0 || height == 0 {
            return None;
        }
        let at: usize = self.find(url, width, height);
        if at < self.cache.len() {
            assert(self.ready()[at as int].1 == self.cache@[at as int].1@);
            return Some(self.cache[at].1.clone());
        }
        if !self.is_awaited(url, width, height) {
            let ghost key = KeyView { url: url@, width, height };
            self.pending.push(CacheKey { url: url.to_owned(), width, height });
            self.jobs.push(CacheKey { url: url.to_owned(), width, height });
            assert(self.awaited() =~= old(self).awaited().push(key));
            assert(self.queue() =~= old(self).queue().push(key));
            assert(self.blank_images() == old(self).blank_images());
        }
        None
    }

    /// The image to encode next, which leaves the jobs.
    pub fn take_job(&mut self) -> (job: Option<CacheKey>)
        requires
            old(self).wf(),
        ensures
            final(self).wf(),
            final(self).ready() == old(self).ready(),
            final(self).awaited() == old(self).awaited(),
            final(self).blank_images() == old(self).blank_images(),
            if old(self).queue().len() == 0 {
                job is None && final(self).queue() == old(self).queue()
            } else {
                job is Some && job->0@ == old(self).queue()[0] && final(self).queue() == old(
                    self,
                ).queue().skip(1)
            },
    {
        if self.jobs.len() == 0 {
            return None;
        }
        let job = self.jobs.remove(0);
        assert(self.queue() =~= old(self).queue().skip(1));
        assert(job@ == old(self).queue()[0]);
        assert(self.blank_images() == old(self).blank_images());
        Some(job)
    }

    /// Insert an encoded image, evicting the oldest entries once there are more than
    /// [`MAX_CACHE_ENTRIES`]. An image that was there already keeps its age.
    pub fn store(&mut self, key: &CacheKey, sixel: String)
        requires
            old(self).wf(),
        ensures
            final(self).wf(),
            final(self).ready() == stored(old(self).ready(), key@, sixel@),
            final(self).awaited() == old(self).awaited(),
            final(self).queue() == old(self).queue(),
            final(self).blank_images() == old(self).blank_images(),
    {
        let ghost before = self.ready();
        let ghost image = sixel@;
        proof {
            lemma_place_of(before, key@);
            lemma_storing_keeps_order(before, key@, image);
        }
        let at: usize = self.find(key.url.as_str(), key.width, key.height);
        assert(key@ == (KeyView { url: key.url@, width: key.width, height: key.height }));
        if at < self.cache.len() {
            self.cache.set(at, (key.copy(), sixel));
            assert(self.ready() =~= before.update(at as int, (key@, image)));
        } else {
            self.cache.push((key.copy(), sixel));
            assert(self.ready() =~= before.push((key@, image)));
        }
        let ghost grown = self.ready();
        assert(grown.skip(0) =~= grown);
        let ghost mut dropped: int = 0;
        while self.cache.len() > MAX_CACHE_ENTRIES
            invariant
                0 <= dropped <= max(0, grown.len() - MAX_CACHE_ENTRIES),
                self.ready() == grown.skip(dropped),
                self.ready().len() == self.cache@.len(),
                self.awaited() == old(self).awaited(),
                self.queue() == old(self).queue(),
                self.blank_images() == old(self).blank_images(),
            decreases self.cache@.len(),
        {
            let ghost shrinking = self.ready();
            self.cache.remove(0);
            assert(self.ready() =~= shrinking.skip(1));
            assert(grown.skip(dropped).skip(1) =~= grown.skip(dropped + 1));
            proof {
                dropped = dropped + 1;
            }
        }
        assert(dropped == max(0, grown.len() - MAX_CACHE_ENTRIES));
    }

    /// Settles a job: an image that was encoded is stored, and it may be asked for again. Tells
    /// whether there is something new to show.
    pub fn settle(&mut self, key: &CacheKey, encoded: Result<String, String>) -> (changed: bool)
        requires
            old(self).wf(),
        ensures
            final(self).wf(),
            changed == encoded is Ok,
            final(self).ready() == match encoded {
                Ok(sixel) => stored(old(self).ready(), key@, sixel@),
                Err(_) => old(self).ready(),
            },
            final(self).awaited() == without(old(self).awaited(), key@),
            final(self).queue() == old(self).queue(),
            final(self).blank_images() == old(self).blank_images(),
    {
        let changed = match encoded {
            Ok(sixel) => {
                self.store(key, sixel);
                true
            },
            Err(_) => false,
        };
        let ghost settled = *self;
        let ghost keys = self.awaited();
        let mut rest: Vec<CacheKey> = Vec::new();
        let mut at: usize = 0;
        assert(keys.take(0) =~= Seq::<KeyView>::empty());
        assert(rest@.map_values(|k: CacheKey| k@) =~= Seq::<KeyView>::empty());
        while at < self.pending.len()
            invariant
                at <= self.pending@.len(),
                *self == settled,
                keys == self.awaited(),
                rest@.map_values(|k: CacheKey| k@) == without(keys.take(at as int), key@),
            decreases self.pending@.len() - at,
        {
            let ghost kept = rest@.map_values(|k: CacheKey| k@);
            assert(keys.take(at + 1).drop_last() =~= keys.take(at as int));
            assert(keys.take(at + 1).last() == self.pending@[at as int]@);
            assert(key@ == (KeyView { url: key.url@, width: key.width, height: key.height }));
            if !self.pending[at].is_for(key.url.as_str(), key.width, key.height) {
                let copy = self.pending[at].copy();
                rest.push(copy);
                assert(rest@.map_values(|k: CacheKey| k@) =~= kept.push(copy@));
            }
            at += 1;
        }
        assert(keys.take(at as int) =~= keys);
        self.pending = rest;
        assert(self.blank_images() == settled.blank_images());
        changed
    }

    /// An opaque black image used to blank an image slot. Encoded on first use per size.
    ///
    /// Emitting it overwrites stale pixels (a transparent image would leave them in place).
    pub fn blank(&mut self, width: usize, height: usize) -> (image: Option<String>)
        requires
            old(self).wf(),
            4 * (width * height) <= isize::MAX,
        ensures
            final(self).wf(),
            final(self).ready() == old(self).ready(),
            final(self).awaited() == old(self).awaited(),
            final(self).queue() == old(self).queue(),
            match blank_of(old(self).blank_images(), (width, height)) {
                _ if width == 0 || height == 0 => {
                    &&& image is None
                    &&& final(self).blank_images() == old(self).blank_images()
                },
                Some(known) => {
                    &&& maybe_text(image) == Some(known)
                    &&& final(self).blank_images() == old(self).blank_images()
                },
                None => match image {
                    Some(image) => {
                        &&& encodable(width as int, height as int)
                        &&& is_sixel(image@, width, height)
                        &&& encoded_from(image@, black(width, height), width, height)
                        &&& final(self).blank_images() == old(self).blank_images().push(
                            ((width, height), image@),
                        )
                    },
                    None => {
                        &&& !encodable(width as int, height as int)
                        &&& final(self).blank_images() == old(self).blank_images()
                    },
                },
            },
    {
        if width == 0 || height == 0 {
            return None;
        }
        let mut at: usize = 0;
        let ghost known = self.blank_images();
        assert(known.skip(0) =~= known);
        while at < self.blanks.len()
            invariant
                at <= self.blanks@.len(),
                *self == *old(self),
                self.wf(),
                known == self.blank_images(),
                width > 0,
                height > 0,
                blank_of(known, (width, height)) == blank_of(
                    known.skip(at as int),
                    (width, height),
                ),
            decreases self.blanks@.len() - at,
        {
            assert(known.skip(at as int)[0] == (self.blanks@[at as int].0, self.blanks@[at as int].1@));
            let size = self.blanks[at].0;
            if size.0 == width && size.1 == height {
                return Some(self.blanks[at].1.clone());
            }
            assert(known.skip(at as int).skip(1) =~= known.skip(at + 1));
            at += 1;
        }
        assert(known.skip(at as int) =~= Seq::<((usize, usize), Seq<char>)>::empty());
        match encode_pixels(black_pixels(width, height), width, height) {
            Ok(image) => {
                self.blanks.push(((width, height), image.clone()));
                assert(self.blank_images() =~= known.push(((width, height), image@)));
                Some(image)
            },
            Err(_) => None,
        }
    }
}

/// Whether a text is an opaque black image of a size.
pub open spec fn is_black(image: Seq<char>, size: (usize, usize)) -> bool {
    &&& is_sixel(image, size.0, size.1)
    &&& encoded_from(image, black(size.0, size.1), size.0, size.1)
}

/// Whether `after` are the blank images once one of a size has been asked for: it has joined them,
/// if it can be encoded and is not among them already.
pub open spec fn joined_by_blank(
    before: Seq<((usize, usize), Seq<char>)>,
    after: Seq<((usize, usize), Seq<char>)>,
    size: (usize, usize),
) -> bool {
    if blank_of(before, size) is None && encodable(size.0 as int, size.1 as int) {
        &&& after == before.push((size, after.last().1))
        &&& is_black(after.last().1, size)
    } else {
        after == before
    }
}

/// The blank image of a size, if there is one.
pub open spec fn blank_of(images: Seq<((usize, usize), Seq<char>)>, size: (usize, usize)) -> Option<
    Seq<char>,
>
    decreases images.len(),
{
    if images.len() == 0 {
        None
    } else if images[0].0 == size {
        Some(images[0].1)
    } else {
        blank_of(images.skip(1), size)
    }
}

proof fn lemma_storing_keeps_order(
    entries: Seq<(KeyView, Seq<char>)>,
    key: KeyView,
    image: Seq<char>,
)
    requires
        entries.len() <= MAX_CACHE_ENTRIES,
        distinct_keys(entries),
    ensures
        stored(entries, key, image).len() <= MAX_CACHE_ENTRIES,
        distinct_keys(stored(entries, key, image)),
{
    lemma_place_of(entries, key);
    let at = place_of(entries, key);
    let grown = if at < entries.len() {
        entries.update(at, (key, image))
    } else {
        entries.push((key, image))
    };
    assert(distinct_keys(grown)) by {
        assert forall|i: int, j: int| 0 <= i < j < grown.len() implies (#[trigger] grown[i]).0 != (
        #[trigger] grown[j]).0 by {
            if at < entries.len() {
                assert(entries[i].0 != entries[j].0);
            } else if j < entries.len() {
                assert(entries[i].0 != entries[j].0);
            } else {
                assert(entries[i].0 != key);
            }
        }
    }
    let first = max(0, grown.len() - MAX_CACHE_ENTRIES);
    let after = grown.skip(first);
    assert forall|i: int, j: int| 0 <= i < j < after.len() implies (#[trigger] after[i]).0 != (
    #[trigger] after[j]).0 by {
        assert(grown[i + first].0 != grown[j + first].0);
    }
}

/// An image that is asked for again and again is put to the jobs once.
pub proof fn lemma_asked_for_once(
    ready: Seq<(KeyView, Seq<char>)>,
    awaited: Seq<KeyView>,
    key: KeyView,
)
    requires
        schedules(ready, awaited, key),
    ensures
        !schedules(ready, awaited.push(key), key),
{
    assert(awaited.push(key)[awaited.len() as int] == key);
    assert(awaited.push(key).contains(key));
}

/// An image that was stored is found again, as it was stored.
pub proof fn lemma_stored_image_is_found(
    entries: Seq<(KeyView, Seq<char>)>,
    key: KeyView,
    image: Seq<char>,
)
    requires
        entries.len() <= MAX_CACHE_ENTRIES,
        distinct_keys(entries),
    ensures
        image_of(stored(entries, key, image), key) == Some(image),
{
    lemma_place_of(entries, key);
    lemma_storing_keeps_order(entries, key, image);
    let at = place_of(entries, key);
    let after = stored(entries, key, image);
    if at < entries.len() {
        assert(after =~= entries.update(at, (key, image)));
        lemma_place_is(after, key, at);
    } else {
        let last = after.len() - 1;
        assert(after[last] == (key, image));
        assert forall|j: int| 0 <= j < last implies (#[trigger] after[j]).0 != key by {
            assert(after[j].0 != after[last].0);
        }
        lemma_place_is(after, key, last);
    }
}

/// Storing an image takes at most one other image out, and that is the oldest. All others stay.
pub proof fn lemma_only_the_oldest_is_evicted(
    entries: Seq<(KeyView, Seq<char>)>,
    key: KeyView,
    image: Seq<char>,
    other: int,
)
    requires
        entries.len() <= MAX_CACHE_ENTRIES,
        distinct_keys(entries),
        0 <= other < entries.len(),
        entries[other].0 != key,
        other > 0 || entries.len() < MAX_CACHE_ENTRIES || image_of(entries, key) is Some,
    ensures
        image_of(stored(entries, key, image), entries[other].0) == Some(entries[other].1),
{
    lemma_place_of(entries, key);
    lemma_storing_keeps_order(entries, key, image);
    let at = place_of(entries, key);
    let after = stored(entries, key, image);
    let place = if at == entries.len() && entries.len() == MAX_CACHE_ENTRIES {
        other - 1
    } else {
        other
    };
    assert(after[place] == entries[other]);
    assert forall|j: int| 0 <= j < place implies (#[trigger] after[j]).0 != entries[other].0 by {
        assert(after[j].0 != after[place].0);
    }
    lemma_place_is(after, entries[other].0, place);
}

// Encoding

/// How the text of a sixel image of a size starts: the pixels are square, those that are not drawn
/// keep their color, and the size follows.
pub open spec fn sixel_header(width: usize, height: usize) -> Seq<char> {
    "\u{1b}P9;1;0q\"1;1;"@ + decimal(width as nat) + ";"@ + decimal(height as nat)
}

/// Whether a text is a sixel image of a size, as far as its start tells.
pub open spec fn is_sixel(text: Seq<char>, width: usize, height: usize) -> bool {
    let header = sixel_header(width, height);
    text.len() > header.len() && text.take(header.len() as int) == header
}

/// The most pixels that a sixel image has in a row or a column.
pub const MOST_SIDE: usize = 1000000;

/// The most pixels that a sixel image has in all.
pub const MOST_PIXELS: usize = 67108864;

/// The rows of pixels in one band of a sixel image.
pub const BAND: usize = 6;

/// Whether an image of a size can be encoded: its rows, filled up to whole bands, keep to the
/// limits.
pub open spec fn encodable(width: int, height: int) -> bool {
    let rows = div_up(height, BAND as int) * BAND;
    &&& 0 < width <= MOST_SIDE
    &&& 0 < height
    &&& rows <= MOST_SIDE
    &&& width * rows <= MOST_PIXELS
}

/// Whether a text is one that `SixelImage::encode` gives for the pixels of an image. It chooses
/// the colors in floating point arithmetic, so that there can be another text on another machine.
pub uninterp spec fn encoded_from(
    text: Seq<char>,
    pixels: Seq<u8>,
    width: usize,
    height: usize,
) -> bool;

/// `SixelImage::try_from_rgba` and `SixelImage::encode` encode the pixels of an image, four bytes
/// each. They fail just where the number of bytes does not fit the size, and where the size is
/// zero or too large. Which colors they choose is not stated.
#[verifier::external_body]
pub(crate) fn encode_pixels(pixels: Vec<u8>, width: usize, height: usize) -> (encoded: Result<
    String,
    String,
>)
    ensures
        encoded is Ok == (encodable(width as int, height as int) && pixels@.len() == 4 * (width
            * height)),
        encoded matches Ok(text) ==> is_sixel(text@, width, height) && encoded_from(
            text@,
            pixels@,
            width,
            height,
        ),
{
    icy_sixel::SixelImage::try_from_rgba(pixels, width, height)
        .and_then(|image| image.encode())
        .map_err(|e| e.to_string())
}

/// The pixels of an opaque black image, four bytes each.
pub open spec fn black(width: usize, height: usize) -> Seq<u8> {
    Seq::new(
        (4 * (width * height)) as nat,
        |i: int|
            if i % 4 == 3 {
                255u8
            } else {
                0u8
            },
    )
}

/// The pixels of an opaque black image.
pub fn black_pixels(width: usize, height: usize) -> (pixels: Vec<u8>)
    requires
        4 * (width * height) <= isize::MAX,
    ensures
        pixels@ == black(width, height),
{
    assert(width * height <= isize::MAX);
    let count: usize = width * height;
    let mut pixels: Vec<u8> = Vec::new();
    let mut n: usize = 0;
    while n < count
        invariant
            n <= count,
            pixels@.len() == 4 * n,
            forall|i: int|
                0 <= i < pixels@.len() ==> (#[trigger] pixels@[i]) == if i % 4 == 3 {
                    255u8
                } else {
                    0u8
                },
        decreases count - n,
    {
        pixels.push(0);
        pixels.push(0);
        pixels.push(0);
        pixels.push(255);
        n += 1;
    }
    assert(pixels@ =~= black(width, height));
    pixels
}

#[verifier::external_type_specification]
#[verifier::external_body]
pub struct ExDynamicImage(DynamicImage);

/// The width of an image in pixels: `DynamicImage::width`.
pub uninterp spec fn image_width(image: DynamicImage) -> nat;

/// The height of an image in pixels: `DynamicImage::height`.
pub uninterp spec fn image_height(image: DynamicImage) -> nat;

/// The bytes of an image, of which each pixel takes four, row by row: `DynamicImage::to_rgba8` and
/// `ImageBuffer::into_raw`.
pub uninterp spec fn image_pixels(image: DynamicImage) -> Seq<u8>;

/// The image in a file, if there is one: `ImageReader::decode`.
pub uninterp spec fn decoded(file: Seq<u8>) -> Option<DynamicImage>;

/// Whether an image is one that `DynamicImage::resize_exact` makes of another. It mixes the colors
/// in floating point arithmetic, so that there can be another image on another machine.
pub uninterp spec fn resized_from(
    resized: DynamicImage,
    image: DynamicImage,
    width: u32,
    height: u32,
) -> bool;

/// `ImageReader::with_guessed_format` and `ImageReader::decode` decode a file, whose format they
/// tell from its content. The image depends on the content alone. That no malformed file makes the
/// decoders panic is not shown.
#[verifier::external_body]
pub(crate) fn decode_image(file: Vec<u8>) -> (image: Result<DynamicImage, String>)
    ensures
        match image {
            Ok(image) => decoded(file@) == Some(image),
            Err(_) => decoded(file@) is None,
        },
{
    image::ImageReader::new(std::io::Cursor::new(file))
        .with_guessed_format()
        .map_err(|e| e.to_string())?
        .decode()
        .map_err(|e| e.to_string())
}

/// `DynamicImage::width`.
#[verifier::external_body]
pub(crate) fn width_of(image: &DynamicImage) -> (width: u32)
    ensures
        width == image_width(*image),
{
    image.width()
}

/// `DynamicImage::resize_exact` gives an image of exactly the size that is asked for, with four
/// bytes to each of its pixels. Which colors they get is not stated. The sides are limited: the
/// places of the pixels are single precision numbers, and of a longer side two can be the same.
#[verifier::external_body]
pub(crate) fn resize(image: &DynamicImage, width: u32, height: u32) -> (resized: DynamicImage)
    requires
        0 < width <= MOST_SIDE,
        0 < height <= MOST_SIDE,
        16 * (width * height) <= isize::MAX,
        16 * (image_width(*image) * height) <= isize::MAX,
    ensures
        image_width(resized) == width,
        image_height(resized) == height,
        image_pixels(resized).len() == 4 * (width * height),
        resized_from(resized, *image, width, height),
{
    image.resize_exact(width, height, image::imageops::FilterType::Lanczos3)
}

/// `DynamicImage::to_rgba8` and `ImageBuffer::into_raw` give the bytes of an image. They depend on
/// the image alone; there can be more of them than its pixels take.
#[verifier::external_body]
pub(crate) fn pixels_of(image: &DynamicImage) -> (pixels: Vec<u8>)
    requires
        4 * (image_width(*image) * image_height(*image)) <= isize::MAX,
    ensures
        pixels@ == image_pixels(*image),
{
    image.to_rgba8().into_raw()
}

/// Whether an image that is `source` pixels wide can be resized in memory.
pub open spec fn resizable(source: int, width: int, height: int) -> bool {
    &&& 0 < width <= u32::MAX
    &&& 0 < height <= u32::MAX
    &&& 16 * (width * height) <= isize::MAX
    &&& 16 * (source * height) <= isize::MAX
}

fn can_resize(source: u32, width: usize, height: usize) -> (yes: bool)
    ensures
        yes == resizable(source as int, width as int, height as int),
{
    if width == 0 || height == 0 || width > 0xffff_ffff || height > 0xffff_ffff {
        return false;
    }
    assert(0 <= width * height <= 0xffff_ffff * 0xffff_ffff) by (nonlinear_arith)
        requires
            width <= 0xffff_ffff,
            height <= 0xffff_ffff,
    ;
    assert(0 <= source * height <= 0xffff_ffff * 0xffff_ffff) by (nonlinear_arith)
        requires
            source <= 0xffff_ffff,
            height <= 0xffff_ffff,
    ;
    let limit: u128 = isize::MAX as u128;
    16 * (width as u128 * height as u128) <= limit && 16 * (source as u128 * height as u128)
        <= limit
}

fn can_encode(width: usize, height: usize) -> (yes: bool)
    ensures
        yes == encodable(width as int, height as int),
{
    if width == 0 || height == 0 || width > MOST_SIDE || height > MOST_SIDE {
        return false;
    }
    let rows: usize = (height + (BAND - 1)) / BAND * BAND;
    if rows > MOST_SIDE {
        return false;
    }
    assert(0 <= width * rows <= 1000000 * 1000000) by (nonlinear_arith)
        requires
            width <= 1000000,
            rows <= 1000000,
    ;
    width as u64 * rows as u64 <= MOST_PIXELS as u64
}

/// Whether an image can be resized to a size and encoded.
pub open spec fn convertible(image: DynamicImage, width: usize, height: usize) -> bool {
    &&& resizable(image_width(image) as int, width as int, height as int)
    &&& encodable(width as int, height as int)
}

/// Whether a text is an image, resized and encoded.
pub open spec fn converted_from(
    text: Seq<char>,
    image: DynamicImage,
    width: usize,
    height: usize,
) -> bool {
    &&& is_sixel(text, width, height)
    &&& exists|resized: DynamicImage|
        #[trigger] resized_from(resized, image, width as u32, height as u32) && encoded_from(
            text,
            image_pixels(resized),
            width,
            height,
        )
}

/// Decodes, resizes and encodes the file of a cover. Slow.
pub fn encode_file(file: Vec<u8>, width: usize, height: usize) -> (encoded: Result<String, String>)
    ensures
        match decoded(file@) {
            Some(image) => {
                &&& encoded is Ok <==> convertible(image, width, height)
                &&& encoded matches Ok(text) ==> converted_from(text@, image, width, height)
            },
            None => encoded is Err,
        },
{
    match decode_image(file) {
        Ok(image) => encode_image(&image, width, height),
        Err(error) => Err(error),
    }
}

/// Resizes and encodes an image. Where the size is out of the limits, it says so.
pub fn encode_image(image: &DynamicImage, width: usize, height: usize) -> (encoded: Result<
    String,
    String,
>)
    ensures
        encoded is Ok <==> convertible(*image, width, height),
        encoded matches Ok(text) ==> converted_from(text@, *image, width, height),
        encoded matches Err(text) ==> text@ == "image too large"@,
{
    let source: u32 = width_of(image);
    if !can_encode(width, height) || !can_resize(source, width, height) {
        return Err("image too large".to_owned());
    }
    let resized = resize(image, width as u32, height as u32);
    let encoded = encode_pixels(pixels_of(&resized), width, height);
    assert(encoded is Ok);
    encoded
}

/// Whether what the cache on disk holds for an image can be used. Where it can't, the cover has
/// to be encoded.
pub fn usable_cache(content: Option<String>) -> (image: Option<String>)
    ensures
        image == match content {
            Some(text) => if text@.len() > 0 {
                Some(text)
            } else {
                None
            },
            None => None,
        },
{
    match content {
        Some(text) => if crate::text::chars_of(text.as_str()).len() > 0 {
            Some(text)
        } else {
            None
        },
        None => None,
    }
}

/// The name of the file in the cache on disk for the image of a cover, given the name of the
/// cover's own file.
pub fn sixel_cache_file(stem: &str, width: usize, height: usize) -> (name: String)
    ensures
        name@ == stem@ + "-"@ + decimal(width as nat) + "x"@ + decimal(height as nat) + ".six"@,
{
    let mut name = stem.to_owned();
    name.append("-");
    name.append(decimal_text(width as u64).as_str());
    name.append("x");
    name.append(decimal_text(height as u64).as_str());
    name.append(".six");
    name
}

// Drawing

/// What writes an image to the terminal at a cell, in one update and with the cursor left where it
/// was.
pub open spec fn emission(image: Seq<char>, x: int, y: int) -> Seq<char> {
    "\u{1b}[?2026h\u{1b}7"@ + "\u{1b}["@ + decimal((y + 1) as nat) + ";"@ + decimal(
        (x + 1) as nat,
    ) + "H"@ + image + "\u{1b}8\u{1b}[?2026l"@
}

pub fn emit(image: &str, position: Vec2) -> (text: String)
    requires
        position.x < usize::MAX,
        position.y < usize::MAX,
    ensures
        text@ == emission(image@, position.x as int, position.y as int),
{
    let mut text = "\u{1b}[?2026h\u{1b}7".to_owned();
    text.append("\u{1b}[");
    text.append(decimal_text((position.y + 1) as u64).as_str());
    text.append(";");
    text.append(decimal_text((position.x + 1) as u64).as_str());
    text.append("H");
    text.append(image);
    text.append("\u{1b}8\u{1b}[?2026l");
    text
}

/// What overwrites cells with blanks, erasing the pixels of an image there. Nothing where there
/// are no cells.
pub fn clear_area(position: Vec2, size: Vec2) -> (text: Option<String>)
    ensures
        maybe_text(text) == if size.x == 0 || size.y == 0 {
            None
        } else {
            Some(erasure(seq![position], size.x as int, size.y as int))
        },
{
    if size.x == 0 || size.y == 0 {
        return None;
    }
    let mut positions: Vec<Vec2> = Vec::new();
    positions.push(position);
    assert(positions@ =~= seq![position]);
    Some(erasure_text(positions.as_slice(), size.x, size.y))
}

/// The side of the largest square in pixels that fits into some cells. Covers are square.
pub open spec fn side_px(size: Vec2, cell_px: Vec2) -> int {
    min(min(size.x * cell_px.x, size.y * cell_px.y), MAX_COVER_PX as int)
}

/// The cells that a side takes up, of as many as there are.
pub open spec fn side_cells(side: int, cells: int, cell_px: int) -> int {
    min(side / max(cell_px, 1), cells)
}

/// Where an image starts that is centred in some cells.
pub open spec fn centred_at(offset: int, side: int, cells: int, cell_px: int) -> int {
    offset + (cells - side_cells(side, cells, cell_px)) / 2
}

fn centre_at(offset: usize, side: usize, cells: usize, cell_px: usize) -> (at: usize)
    requires
        offset + cells <= usize::MAX,
    ensures
        at == centred_at(offset as int, side as int, cells as int, cell_px as int),
        offset <= at <= offset + cells,
{
    let divisor: usize = if cell_px >= 1 {
        cell_px
    } else {
        1
    };
    let taken: usize = side / divisor;
    let taken: usize = if taken <= cells {
        taken
    } else {
        cells
    };
    offset + (cells - taken) / 2
}

/// Draws covers by way of the image cache.
pub struct SixelBackend {
    pub images: SixelImageCache,
}

impl SixelBackend {
    pub fn new(images: SixelImageCache) -> (backend: SixelBackend)
        ensures
            backend.images == images,
    {
        SixelBackend { images }
    }

    /// What to write to the terminal to draw the cover for `url` into the given cells. Nothing
    /// while the image is not ready, or where there is no room.
    pub fn draw(&mut self, url: &str, offset: Vec2, size: Vec2, cell_px: Vec2) -> (text: Option<
        String,
    >)
        requires
            old(self).images.wf(),
            size.x * cell_px.x <= usize::MAX,
            size.y * cell_px.y <= usize::MAX,
            offset.x + size.x < usize::MAX,
            offset.y + size.y < usize::MAX,
        ensures
            final(self).images.wf(),
            final(self).images.ready() == old(self).images.ready(),
            final(self).images.blank_images() == old(self).images.blank_images(),
            ({
                let side = side_px(size, cell_px);
                let key = KeyView { url: url@, width: side as usize, height: side as usize };
                let image = image_of(old(self).images.ready(), key);
                let scheduled = schedules(
                    old(self).images.ready(),
                    old(self).images.awaited(),
                    key,
                );
                &&& maybe_text(text) == if side == 0 || image is None {
                    None
                } else {
                    Some(
                        emission(
                            image->0,
                            centred_at(offset.x as int, side, size.x as int, cell_px.x as int),
                            centred_at(offset.y as int, side, size.y as int, cell_px.y as int),
                        ),
                    )
                }
                &&& final(self).images.queue() == if scheduled {
                    old(self).images.queue().push(key)
                } else {
                    old(self).images.queue()
                }
                &&& final(self).images.awaited() == if scheduled {
                    old(self).images.awaited().push(key)
                } else {
                    old(self).images.awaited()
                }
            }),
    {
        assert(0 <= size.x * cell_px.x && 0 <= size.y * cell_px.y) by (nonlinear_arith);
        let mut side: usize = size.x * cell_px.x;
        let down: usize = size.y * cell_px.y;
        if down < side {
            side = down;
        }
        if MAX_COVER_PX < side {
            side = MAX_COVER_PX;
        }
        assert(side == side_px(size, cell_px));
        if side == 0 {
            return None;
        }
        match self.images.get(url, side, side) {
            Some(image) => {
                let x: usize = centre_at(offset.x, side, size.x, cell_px.x);
                let y: usize = centre_at(offset.y, side, size.y, cell_px.y);
                Some(emit(image.as_str(), Vec2 { x, y }))
            },
            None => None,
        }
    }

    /// What removes a previously drawn cover from the terminal.
    pub fn clear(&self, offset: Vec2, size: Vec2) -> (text: Option<String>)
        ensures
            maybe_text(text) == if size.x == 0 || size.y == 0 {
                None
            } else {
                Some(erasure(seq![offset], size.x as int, size.y as int))
            },
    {
        clear_area(offset, size)
    }
}

// Probing

/// What asks the terminal for its attributes.
pub const DA1_QUERY: &'static str = "\u{1b}[c";

/// Whether the answer of the terminal has come to its end.
pub fn is_complete(response: &[u8]) -> (yes: bool)
    ensures
        yes == response@.contains(0x63),
{
    let mut i: usize = 0;
    while i < response.len()
        invariant
            i <= response@.len(),
            forall|j: int| 0 <= j < i ==> (#[trigger] response@[j]) != 0x63,
        decreases response@.len() - i,
    {
        if response[i] == 0x63 {
            assert(response@[i as int] == 0x63);
            return true;
        }
        i += 1;
    }
    false
}

/// The answer without the escape characters, brackets and question marks at its start.
pub open spec fn unprefixed(response: Seq<u8>) -> Seq<u8>
    decreases response.len(),
{
    if response.len() > 0 && (response[0] == 0x1b || response[0] == 0x5b || response[0] == 0x3f) {
        unprefixed(response.skip(1))
    } else {
        response
    }
}

/// The answer without the `c`s at its end.
pub open spec fn unterminated(response: Seq<u8>) -> Seq<u8>
    decreases response.len(),
{
    if response.len() > 0 && response.last() == 0x63 {
        unterminated(response.drop_last())
    } else {
        response
    }
}

/// The attributes in an answer, which semicolons separate.
pub open spec fn attributes(answer: Seq<u8>) -> Seq<Seq<u8>>
    decreases answer.len(),
{
    if answer.len() == 0 {
        seq![answer]
    } else if answer.last() == 0x3b {
        attributes(answer.drop_last()).push(Seq::empty())
    } else {
        let before = attributes(answer.drop_last());
        before.drop_last().push(before.last().push(answer.last()))
    }
}

/// Whether the answer of a terminal says that it supports sixel graphics: it has the attribute 4.
/// An answer looks like `ESC [ ? 64 ; 4 ; ... c`.
pub open spec fn reports_sixel(response: Seq<u8>) -> bool {
    attributes(unterminated(unprefixed(response))).contains(seq![0x34u8])
}

proof fn lemma_attributes(answer: Seq<u8>)
    ensures
        attributes(answer).len() > 0,
    decreases answer.len(),
{
    if answer.len() > 0 {
        lemma_attributes(answer.drop_last());
    }
}

fn supports_sixel(response: &[u8]) -> (yes: bool)
    ensures
        yes == reports_sixel(response@),
{
    let mut start: usize = 0;
    assert(response@.skip(0) =~= response@);
    while start < response.len() && (response[start] == 0x1b || response[start] == 0x5b
        || response[start] == 0x3f)
        invariant
            start <= response@.len(),
            unprefixed(response@.skip(start as int)) == unprefixed(response@),
        decreases response@.len() - start,
    {
        assert(response@.skip(start as int)[0] == response@[start as int]);
        assert(response@.skip(start as int).skip(1) =~= response@.skip(start + 1));
        start += 1;
    }
    let ghost body = response@.skip(start as int);
    assert(body == unprefixed(response@)) by {
        if start < response@.len() {
            assert(body[0] == response@[start as int]);
        }
    }
    let mut end: usize = response.len();
    assert(body.take(end - start) =~= body);
    while end > start && response[end - 1] == 0x63
        invariant
            start <= end <= response@.len(),
            body == response@.skip(start as int),
            unterminated(body.take(end - start)) == unterminated(body),
        decreases end,
    {
        assert(body.take(end - start).last() == response@[end - 1]);
        assert(body.take(end - start).drop_last() =~= body.take(end - start - 1));
        end -= 1;
    }
    let ghost answer = body.take(end - start);
    assert(answer == unterminated(body)) by {
        if end > start {
            assert(answer.last() == response@[end - 1]);
        }
    }
    // The attributes before the current one, and the current one, for the first bytes.
    let mut found = false;
    let mut len: usize = 0;
    let mut only_four = false;
    let mut i: usize = start;
    assert(answer.take(0) =~= Seq::<u8>::empty());
    let ghost four = seq![0x34u8];
    while i < end
        invariant
            start <= i <= end <= response@.len(),
            body == response@.skip(start as int),
            answer == body.take(end - start),
            four == seq![0x34u8],
            attributes(answer.take(i - start)).len() > 0,
            len == attributes(answer.take(i - start)).last().len(),
            len <= i - start,
            only_four == (attributes(answer.take(i - start)).last() == four),
            found == attributes(answer.take(i - start)).drop_last().contains(four),
        decreases end - i,
    {
        let ghost here = answer.take(i - start);
        let ghost next = answer.take(i + 1 - start);
        let ghost known = attributes(here);
        assert(next.drop_last() =~= here);
        assert(next.last() == response@[i as int]);
        let byte: u8 = response[i];
        if byte == 0x3b {
            assert(attributes(next) == known.push(Seq::empty()));
            assert(attributes(next).drop_last() =~= known);
            assert(known.contains(four) == (found || only_four)) by {
                if known.contains(four) {
                    let k = choose|k: int| 0 <= k < known.len() && known[k] == four;
                    if k < known.len() - 1 {
                        assert(known.drop_last()[k] == four);
                    }
                }
                if found {
                    let k = choose|k: int|
                        0 <= k < known.drop_last().len() && known.drop_last()[k] == four;
                    assert(known[k] == four);
                }
                if only_four {
                    assert(known[known.len() - 1] == four);
                }
            }
            found = found || only_four;
            len = 0;
            only_four = false;
            assert(attributes(next).last().len() == 0);
        } else {
            let ghost longer = known.last().push(byte);
            assert(attributes(next) == known.drop_last().push(longer));
            assert(attributes(next).drop_last() =~= known.drop_last());
            assert((longer == four) == (known.last().len() == 0 && byte == 0x34)) by {
                if known.last().len() == 0 && byte == 0x34 {
                    assert(longer =~= four);
                }
                if longer == four {
                    assert(longer.len() == 1);
                    assert(longer[0] == byte || known.last().len() > 0);
                }
            }
            only_four = len == 0 && byte == 0x34;
            len += 1;
        }
        i += 1;
    }
    assert(answer.take(end - start) =~= answer);
    let ghost all = attributes(answer);
    assert(all.contains(four) == (found || only_four)) by {
        if all.contains(four) {
            let k = choose|k: int| 0 <= k < all.len() && all[k] == four;
            if k < all.len() - 1 {
                assert(all.drop_last()[k] == four);
            }
        }
        if found {
            let k = choose|k: int| 0 <= k < all.drop_last().len() && all.drop_last()[k] == four;
            assert(all[k] == four);
        }
        if only_four {
            assert(all[all.len() - 1] == four);
        }
    }
    found || only_four
}

/// Whether the terminal supports sixel graphics, by its answer to [`DA1_QUERY`]. Where it could
/// not be asked, it doesn't.
pub fn probe_support(response: &Result<Vec<u8>, String>) -> (supported: bool)
    ensures
        supported == match *response {
            Ok(response) => reports_sixel(response@),
            Err(_) => false,
        },
{
    match response {
        Ok(response) => supports_sixel(response.as_slice()),
        Err(_) => false,
    }
}

// What holds of covers as sixel images

/// The image that is found under a key is one that is kept under it, and none is found just where
/// none is kept.
pub proof fn lemma_images_are_found_by_their_key(
    entries: Seq<(KeyView, Seq<char>)>,
    key: KeyView,
    i: int,
)
    ensures
        image_of(entries, key) matches Some(image) ==> entries.contains((key, image)),
        0 <= i < entries.len() && entries[i].0 == key ==> image_of(entries, key) is Some,
        0 <= i < entries.len() && entries[i].0 == key && distinct_keys(entries) ==> image_of(
            entries,
            key,
        ) == Some(entries[i].1),
{
    lemma_place_of(entries, key);
    let at = place_of(entries, key);
    if at < entries.len() {
        assert(entries[at] == (key, entries[at].1));
    }
    if 0 <= i < entries.len() && entries[i].0 == key && distinct_keys(entries) {
        if at < i {
            assert(entries[at].0 != entries[i].0);
        }
    }
}

/// An image is put to the jobs just where it has a size, is not ready, and was not asked for
/// before.
pub proof fn lemma_only_missing_images_are_encoded(
    ready: Seq<(KeyView, Seq<char>)>,
    awaited: Seq<KeyView>,
    key: KeyView,
)
    ensures
        image_of(ready, key) is Some ==> !schedules(ready, awaited, key),
        awaited.contains(key) ==> !schedules(ready, awaited, key),
        key.width == 0 || key.height == 0 ==> !schedules(ready, awaited, key),
        key.width > 0 && key.height > 0 && ready.len() == 0 && awaited.len() == 0 ==> schedules(
            ready,
            awaited,
            key,
        ),
{
}

/// A settled image is awaited no longer, and the others are awaited as before.
pub proof fn lemma_settled_images_are_not_awaited(
    keys: Seq<KeyView>,
    key: KeyView,
    other: KeyView,
)
    ensures
        !without(keys, key).contains(key),
        other != key ==> (without(keys, key).contains(other) <==> keys.contains(other)),
    decreases keys.len(),
{
    if keys.len() > 0 {
        let before = keys.drop_last();
        let rest = without(before, key);
        let all = without(keys, key);
        lemma_settled_images_are_not_awaited(before, key, other);
        assert(keys =~= before.push(keys.last()));
        if keys.contains(other) && keys.last() != other {
            let k = choose|k: int| 0 <= k < keys.len() && keys[k] == other;
            assert(before[k] == other);
        }
        if before.contains(other) {
            let k = choose|k: int| 0 <= k < before.len() && before[k] == other;
            assert(keys[k] == other);
        }
        if keys.last() != key {
            assert(all == rest.push(keys.last()));
            assert(all[rest.len() as int] == keys.last());
            assert(keys[keys.len() - 1] == keys.last());
            if rest.contains(other) {
                let k = choose|k: int| 0 <= k < rest.len() && rest[k] == other;
                assert(all[k] == other);
            }
            assert(!all.contains(key)) by {
                if all.contains(key) {
                    let k = choose|k: int| 0 <= k < all.len() && all[k] == key;
                    if k < rest.len() {
                        assert(rest[k] == key);
                    }
                }
            }
            if all.contains(other) && other != keys.last() {
                let k = choose|k: int| 0 <= k < all.len() && all[k] == other;
                assert(rest[k] == other);
            }
        } else {
            if keys.contains(other) && other != key {
                assert(before.contains(other));
            }
        }
    }
}

/// The newest entries are kept, in their order, and as many as the limit allows.
pub proof fn lemma_newest_entries_are_kept(entries: Seq<(KeyView, Seq<char>)>, i: int)
    ensures
        entries.len() <= MAX_CACHE_ENTRIES ==> evicted(entries) == entries,
        entries.len() > MAX_CACHE_ENTRIES ==> evicted(entries).len() == MAX_CACHE_ENTRIES,
        0 <= i < evicted(entries).len() ==> evicted(entries)[evicted(entries).len() - 1 - i]
            == entries[entries.len() - 1 - i],
{
}

/// The blank image of a size is found just where there is one of that size.
pub proof fn lemma_blanks_are_found_by_their_size(
    images: Seq<((usize, usize), Seq<char>)>,
    size: (usize, usize),
    i: int,
)
    ensures
        blank_of(images, size) matches Some(image) ==> images.contains((size, image)),
        0 <= i < images.len() && images[i].0 == size ==> blank_of(images, size) is Some,
    decreases images.len(),
{
    if images.len() > 0 {
        if images[0].0 == size {
            assert(images[0] == (size, images[0].1));
        } else {
            let rest = images.skip(1);
            lemma_blanks_are_found_by_their_size(rest, size, i - 1);
            if 0 < i < images.len() {
                assert(rest[i - 1] == images[i]);
            }
            if blank_of(rest, size) is Some {
                let k = choose|k: int|
                    0 <= k < rest.len() && rest[k] == (size, blank_of(rest, size)->0);
                assert(images[k + 1] == rest[k]);
            }
        }
    }
}

/// A blank image is opaque and black: each pixel has full opacity and no color.
pub proof fn lemma_blanks_are_black(width: usize, height: usize, pixel: int)
    requires
        0 <= pixel < width * height,
    ensures
        black(width, height).len() == 4 * (width * height),
        black(width, height)[4 * pixel] == 0,
        black(width, height)[4 * pixel + 1] == 0,
        black(width, height)[4 * pixel + 2] == 0,
        black(width, height)[4 * pixel + 3] == 255,
{
}

/// An image is written where the cursor is put: at its row and then its column, both counted from
/// one. The cursor is saved before and restored behind it.
pub proof fn lemma_images_are_written_at_their_cell(image: Seq<char>, x: int, y: int)
    requires
        0 <= x,
        0 <= y,
    ensures
        exists|before: Seq<char>, behind: Seq<char>|
            emission(image, x, y) == #[trigger] (before + "\u{1b}["@ + decimal((y + 1) as nat)
                + ";"@ + decimal((x + 1) as nat) + "H"@ + image + behind) && before.contains('7')
                && behind.contains('8'),
{
    let before = "\u{1b}[?2026h\u{1b}7"@;
    let behind = "\u{1b}8\u{1b}[?2026l"@;
    reveal_strlit("\u{1b}[?2026h\u{1b}7");
    reveal_strlit("\u{1b}8\u{1b}[?2026l");
    assert(before[9] == '7');
    assert(behind[1] == '8');
    assert(emission(image, x, y) == before + "\u{1b}["@ + decimal((y + 1) as nat) + ";"@ + decimal(
        (x + 1) as nat,
    ) + "H"@ + image + behind);
}

/// A cover is a square that fits into its cells, and the largest one up to the limit.
pub proof fn lemma_covers_are_as_large_as_fits(size: Vec2, cell_px: Vec2)
    ensures
        ({
            let side = side_px(size, cell_px);
            &&& side <= size.x * cell_px.x
            &&& side <= size.y * cell_px.y
            &&& side <= MAX_COVER_PX
            &&& side == size.x * cell_px.x || side == size.y * cell_px.y || side == MAX_COVER_PX
        }),
{
}

/// A cover is centred: it takes up as many whole cells as its side fills, and the space behind them
/// is that before them, or one cell more.
pub proof fn lemma_covers_are_centred(offset: int, side: int, cells: int, cell_px: int)
    requires
        0 <= side <= cells * cell_px,
        0 <= cells,
        0 < cell_px,
    ensures
        ({
            let taken = side_cells(side, cells, cell_px);
            let before = centred_at(offset, side, cells, cell_px) - offset;
            let behind = cells - taken - before;
            &&& 0 <= taken <= cells
            &&& taken * cell_px <= side < (taken + 1) * cell_px
            &&& 0 <= before <= behind <= before + 1
        }),
{
    let taken = side / cell_px;
    assert(0 <= taken <= cells && taken * cell_px <= side < (taken + 1) * cell_px)
        by (nonlinear_arith)
        requires
            0 <= side <= cells * cell_px,
            0 <= cells,
            0 < cell_px,
            taken == side / cell_px,
    ;
}

proof fn lemma_attributes_add(a: Seq<u8>, b: Seq<u8>)
    ensures
        attributes(a.push(0x3b) + b) == attributes(a) + attributes(b),
    decreases b.len(),
{
    let all = a.push(0x3b) + b;
    lemma_attributes(a);
    lemma_attributes(b);
    if b.len() == 0 {
        assert(all =~= a.push(0x3b));
        assert(all.drop_last() =~= a);
        assert(b =~= Seq::empty());
        assert(attributes(all) =~= attributes(a) + attributes(b));
    } else {
        let less = b.drop_last();
        lemma_attributes_add(a, less);
        lemma_attributes(less);
        assert(all.drop_last() =~= a.push(0x3b) + less);
        assert(all.last() == b.last());
        let before = attributes(less);
        let joined = attributes(a) + before;
        if b.last() == 0x3b {
            assert(attributes(all) =~= attributes(a) + attributes(b));
        } else {
            assert(joined.drop_last() =~= attributes(a) + before.drop_last());
            assert(joined.last() == before.last());
            assert(attributes(all) =~= attributes(a) + attributes(b));
        }
    }
}

/// A terminal that answers with the attribute 4 among others supports sixel graphics.
pub proof fn lemma_answers_with_the_attribute(before: Seq<u8>, behind: Seq<u8>)
    requires
        before.len() > 0,
        before[0] != 0x1b,
        before[0] != 0x5b,
        before[0] != 0x3f,
        behind.len() > 0,
        behind.last() != 0x63,
    ensures
        reports_sixel(
            (seq![0x1bu8, 0x5b, 0x3f] + (before + seq![0x3bu8, 0x34, 0x3b] + behind)).push(0x63),
        ),
        reports_sixel((seq![0x1bu8, 0x5b, 0x3f] + (before + seq![0x3bu8, 0x34])).push(0x63)),
        reports_sixel((seq![0x1bu8, 0x5b, 0x3f, 0x34, 0x3b] + behind).push(0x63)),
{
    let four = seq![0x34u8];
    assert(attributes(four) =~= seq![four]) by {
        assert(four.drop_last() =~= Seq::empty());
        assert(attributes(Seq::<u8>::empty()) =~= seq![Seq::<u8>::empty()]);
        assert(Seq::<u8>::empty().push(0x34) =~= four);
        assert(seq![Seq::<u8>::empty()].drop_last() =~= Seq::empty());
    }
    // In the middle
    let middle = before + seq![0x3bu8, 0x34, 0x3b] + behind;
    lemma_attributes_add(before, four.push(0x3b) + behind);
    lemma_attributes_add(four, behind);
    assert(before.push(0x3b) + (four.push(0x3b) + behind) =~= middle);
    lemma_attributes(before);
    assert(attributes(middle)[attributes(before).len() as int] == four);
    lemma_answer_is_unwrapped(middle);
    // At the end
    let end = before + seq![0x3bu8, 0x34];
    lemma_attributes_add(before, four);
    assert(before.push(0x3b) + four =~= end);
    assert(attributes(end)[attributes(before).len() as int] == four);
    lemma_answer_is_unwrapped(end);
    // At the start
    let start = four.push(0x3b) + behind;
    assert(attributes(start)[0] == four);
    lemma_answer_is_unwrapped(start);
    assert((seq![0x1bu8, 0x5b, 0x3f] + start).push(0x63) =~= (seq![0x1bu8, 0x5b, 0x3f, 0x34, 0x3b]
        + behind).push(0x63));
}

proof fn lemma_answer_is_unwrapped(answer: Seq<u8>)
    requires
        answer.len() > 0,
        answer[0] != 0x1b,
        answer[0] != 0x5b,
        answer[0] != 0x3f,
        answer.last() != 0x63,
    ensures
        unterminated(unprefixed((seq![0x1bu8, 0x5b, 0x3f] + answer).push(0x63))) == answer,
{
    let whole = (seq![0x1bu8, 0x5b, 0x3f] + answer).push(0x63);
    let rest = answer.push(0x63);
    assert(whole.skip(1).skip(1).skip(1) =~= rest);
    assert(whole.skip(1)[0] == 0x5b);
    assert(whole.skip(1).skip(1)[0] == 0x3f);
    reveal_with_fuel(unprefixed, 4);
    assert(unprefixed(whole) == rest);
    assert(rest.drop_last() =~= answer);
    reveal_with_fuel(unterminated, 2);
}

/// A terminal whose answer holds no 4 does not support sixel graphics.
pub proof fn lemma_answers_without_the_attribute(response: Seq<u8>)
    requires
        !response.contains(0x34),
    ensures
        !reports_sixel(response),
{
    lemma_unprefixed_is_from(response);
    let start = unprefixed(response);
    lemma_unterminated_is_from(start);
    let answer = unterminated(start);
    assert(!answer.contains(0x34)) by {
        if answer.contains(0x34) {
            let k = choose|k: int| 0 <= k < answer.len() && answer[k] == 0x34;
            assert(start[k] == 0x34);
            assert(start.contains(0x34));
            let m = response.len() - start.len() + k;
            assert(response[m] == 0x34);
        }
    }
    if attributes(answer).contains(seq![0x34u8]) {
        let k = choose|k: int|
            0 <= k < attributes(answer).len() && attributes(answer)[k] == seq![0x34u8];
        lemma_attributes_are_from(answer, k);
        assert(attributes(answer)[k][0] == 0x34);
    }
}

proof fn lemma_unprefixed_is_from(response: Seq<u8>)
    ensures
        unprefixed(response).len() <= response.len(),
        unprefixed(response) == response.skip(response.len() - unprefixed(response).len()),
    decreases response.len(),
{
    if response.len() > 0 && (response[0] == 0x1b || response[0] == 0x5b || response[0] == 0x3f) {
        let rest = response.skip(1);
        lemma_unprefixed_is_from(rest);
        assert(rest.skip(rest.len() - unprefixed(rest).len()) =~= response.skip(
            response.len() - unprefixed(rest).len(),
        ));
    } else {
        assert(response.skip(0) =~= response);
    }
}

proof fn lemma_unterminated_is_from(response: Seq<u8>)
    ensures
        unterminated(response).len() <= response.len(),
        unterminated(response) == response.take(unterminated(response).len() as int),
    decreases response.len(),
{
    if response.len() > 0 && response.last() == 0x63 {
        lemma_unterminated_is_from(response.drop_last());
        let n = unterminated(response).len() as int;
        assert(response.drop_last().take(n) =~= response.take(n));
    } else {
        assert(response.take(response.len() as int) =~= response);
    }
}

proof fn lemma_attributes_are_from(answer: Seq<u8>, k: int)
    requires
        0 <= k < attributes(answer).len(),
    ensures
        forall|i: int|
            0 <= i < attributes(answer)[k].len() ==> answer.contains(
                #[trigger] attributes(answer)[k][i],
            ),
    decreases answer.len(),
{
    if answer.len() > 0 {
        let less = answer.drop_last();
        let before = attributes(less);
        lemma_attributes(less);
        if k < before.len() {
            lemma_attributes_are_from(less, k);
        }
        assert forall|i: int| 0 <= i < attributes(answer)[k].len() implies answer.contains(
            #[trigger] attributes(answer)[k][i],
        ) by {
            if k < before.len() && i < before[k].len() {
                assert(attributes(answer)[k][i] == before[k][i]);
                assert(less.contains(before[k][i]));
                let m = choose|m: int| 0 <= m < less.len() && less[m] == before[k][i];
                assert(answer[m] == before[k][i]);
            } else {
                assert(answer[answer.len() - 1] == attributes(answer)[k][i]);
            }
        }
    }
}

/// An image on disk can be used just where there is one that is not empty.
pub proof fn lemma_cached_images_are_not_empty(content: Option<String>, image: Option<String>)
    requires
        call_ensures(usable_cache, (content,), image),
    ensures
        image is Some ==> image == content && image->0@.len() > 0,
        content matches Some(text) ==> text@.len() > 0 ==> image is Some,
{
}

/// Images are encoded in the order in which they were asked for, each of them once.
pub proof fn lemma_jobs_are_taken_in_order(images: &mut SixelImageCache, job: Option<CacheKey>)
    requires
        call_ensures(SixelImageCache::take_job, (images,), job),
    ensures
        job is None <==> old(images).queue().len() == 0,
        job matches Some(key) ==> old(images).queue() == seq![key@] + final(images).queue(),
        final(images).awaited() == old(images).awaited(),
        final(images).ready() == old(images).ready(),
{
    if old(images).queue().len() > 0 {
        assert(old(images).queue() =~= seq![job->0@] + final(images).queue());
    }
}

/// An image that could be encoded is there from then on, one that could not leaves the others as
/// they were, and neither is awaited any longer.
pub proof fn lemma_settled_images_are_there(
    images: &mut SixelImageCache,
    key: &CacheKey,
    encoded: Result<String, String>,
    changed: bool,
)
    requires
        old(images).wf(),
        call_ensures(SixelImageCache::settle, (images, key, encoded), changed),
    ensures
        changed <==> encoded is Ok,
        encoded matches Ok(image) ==> image_of(final(images).ready(), key@) == Some(image@),
        encoded is Err ==> final(images).ready() == old(images).ready(),
        !final(images).awaited().contains(key@),
{
    lemma_settled_images_are_not_awaited(old(images).awaited(), key@, key@);
    if let Ok(image) = encoded {
        lemma_stored_image_is_found(old(images).ready(), key@, image@);
    }
}

} // verus!
