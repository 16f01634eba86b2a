//! The Reader view's remote images where mailo fetches them itself: what it asks for, when,
//! and what it keeps of what comes back.
//!
//! - Only what the consented reader draws: the `http(s)` remote images of its blocks
//!   ([`wanted`]), and nothing while the reader does not show the thread consented.
//! - Each image once per grant: an image already asked for is not asked for again.
//! - Only while the grant stands: another thread, or the consent cleared, drops every image,
//!   and an answer that lands under an older grant is dropped too ([`Drawn::land`]).
//! - Only a raster image is drawn, as a `data:` URI ([`crate::net::data_uri`]).

use vstd::prelude::*;
use crate::blocks::{Block, ImgSrc};
use crate::found::Document;
use crate::ids::ThreadId;
use crate::net::{Got, data_uri, data_uri_spec};
use crate::text::{chars_of, matches_at, starts_with, str_eq};

verus! {

/// Where one remote image is.
#[derive(Debug)]
pub enum Picture {
    /// Asked for; nothing back yet.
    Loading,
    /// Fetched, and a raster image: its `data:` URI.
    Shown(String),
    /// Fetched and not an image to show, or not fetched at all.
    Refused,
}

/// A picture as plain values.
pub enum PictureView {
    Loading,
    Shown(Seq<char>),
    Refused,
}

/// A picture as plain values.
pub open spec fn picture_view(p: Picture) -> PictureView {
    match p {
        Picture::Loading => PictureView::Loading,
        Picture::Shown(uri) => PictureView::Shown(uri@),
        Picture::Refused => PictureView::Refused,
    }
}

/// What a reader's grant holds: which thread, and what has landed for it.
pub struct Drawn {
    generation: u64,
    granted: Option<ThreadId>,
    showing: Option<(ThreadId, bool)>,
    images: Vec<(String, Picture)>,
}

/// What a reader's grant holds, as plain values.
#[verifier::ext_equal]
pub struct DrawnView {
    /// Moved by every grant and every revoke; a fetch carries the value it started under.
    pub generation: u64,
    /// The thread whose images are granted, if any.
    pub granted: Option<ThreadId>,
    /// The thread the reader shows now, and whether its images are consented.
    pub showing: Option<(ThreadId, bool)>,
    /// Each image asked for under the grant, by its URL.
    pub images: Map<Seq<char>, PictureView>,
}

/// Images as a map from URL; where a URL comes twice, the later one stands.
pub open spec fn images_of(s: Seq<(String, Picture)>) -> Map<Seq<char>, PictureView>
    decreases s.len(),
{
    if s.len() == 0 {
        Map::empty()
    } else {
        images_of(s.drop_last()).insert(s.last().0@, picture_view(s.last().1))
    }
}

impl View for Drawn {
    type V = DrawnView;

    closed spec fn view(&self) -> DrawnView {
        DrawnView {
            generation: self.generation,
            granted: self.granted,
            showing: self.showing,
            images: images_of(self.images@),
        }
    }
}

/// The generation after `g`, wrapping.
pub open spec fn next_generation(g: u64) -> u64 {
    if g == u64::MAX {
        0
    } else {
        (g + 1) as u64
    }
}

/// `d` with its grant taken back: a new generation, no thread granted, no image.
pub open spec fn revoked(d: DrawnView) -> DrawnView {
    DrawnView {
        generation: next_generation(d.generation),
        granted: None,
        showing: d.showing,
        images: Map::empty(),
    }
}

/// `d` once the reader shows `thread`, consented or not: another thread, or no consent,
/// takes back what was granted.
pub open spec fn held(d: DrawnView, thread: ThreadId, showing: bool) -> DrawnView {
    let shown = DrawnView { showing: Some((thread, showing)), ..d };
    if d.granted is Some && (!showing || d.granted != Some(thread)) {
        revoked(shown)
    } else {
        shown
    }
}

/// Whether an answer fetched under `generation` is still wanted.
pub open spec fn stands_spec(d: DrawnView, generation: u64) -> bool {
    d.generation == generation && d.granted is Some
}

/// Whether the reader shows `thread` with its images consented.
pub open spec fn consents(d: DrawnView, thread: ThreadId) -> bool {
    d.showing == Some((thread, true))
}

/// `d` with its grant on `thread`: kept if it is already there, else a new one.
pub open spec fn granted_to(d: DrawnView, thread: ThreadId) -> DrawnView {
    if d.granted == Some(thread) {
        d
    } else {
        DrawnView { granted: Some(thread), ..revoked(d) }
    }
}

/// Those of `wanted` not asked for yet, in order.
pub open spec fn fresh_of(wanted: Seq<Seq<char>>, images: Map<Seq<char>, PictureView>) -> Seq<
    Seq<char>,
>
    decreases wanted.len(),
{
    if wanted.len() == 0 {
        seq![]
    } else {
        let before = fresh_of(wanted.drop_last(), images);
        if images.dom().contains(wanted.last()) {
            before
        } else {
            before.push(wanted.last())
        }
    }
}

/// `images` with each of `urls` set to `p`.
pub open spec fn insert_all(
    images: Map<Seq<char>, PictureView>,
    urls: Seq<Seq<char>>,
    p: PictureView,
) -> Map<Seq<char>, PictureView>
    decreases urls.len(),
{
    if urls.len() == 0 {
        images
    } else {
        insert_all(images, urls.drop_last(), p).insert(urls.last(), p)
    }
}

/// What an image asked for is until it lands: loading, or refused when there is no fetcher.
pub open spec fn asked_picture(has_net: bool) -> PictureView {
    if has_net {
        PictureView::Loading
    } else {
        PictureView::Refused
    }
}

/// The strings' characters.
pub open spec fn urls_of(v: Seq<String>) -> Seq<Seq<char>> {
    v.map_values(|s: String| s@)
}

/// What asking for `wanted` of `thread` does: the state after, the generation the fetches
/// run under, and the URLs to fetch. Nothing, unless the reader shows `thread` consented and
/// wants something.
pub open spec fn ask_spec(d: DrawnView, thread: ThreadId, wanted: Seq<Seq<char>>, has_net: bool) -> (
    DrawnView,
    u64,
    Seq<Seq<char>>,
) {
    if wanted.len() == 0 || !consents(d, thread) {
        (d, d.generation, seq![])
    } else {
        let g = granted_to(d, thread);
        let fresh = fresh_of(wanted, g.images);
        (DrawnView { images: insert_all(g.images, fresh, asked_picture(has_net)), ..g }, g.generation, fresh)
    }
}

/// What an answer is drawn as: its `data:` URI when it is a raster image, else refused.
pub open spec fn landed_picture(got: Option<Got>) -> PictureView {
    match got {
        Some(g) => match data_uri_spec(
            match g.content_type {
                Some(t) => Some(t@),
                None => None,
            },
            g.bytes@,
        ) {
            Some(uri) => PictureView::Shown(uri),
            None => PictureView::Refused,
        },
        None => PictureView::Refused,
    }
}

/// What an answer for `url` fetched under `generation` does: kept when the grant still
/// stands, else dropped.
pub open spec fn land_spec(d: DrawnView, generation: u64, url: Seq<char>, got: Option<Got>) -> DrawnView {
    if stands_spec(d, generation) {
        DrawnView { images: d.images.insert(url, landed_picture(got)), ..d }
    } else {
        d
    }
}

proof fn lemma_images_dom(s: Seq<(String, Picture)>, url: Seq<char>)
    ensures
        images_of(s).dom().contains(url) <==> exists|j: int| 0 <= j < s.len() && (#[trigger] s[j]).0@ == url,
    decreases s.len(),
{
    if s.len() > 0 {
        lemma_images_dom(s.drop_last(), url);
        if images_of(s.drop_last()).dom().contains(url) {
            let j = choose|j: int| 0 <= j < s.drop_last().len() && (#[trigger] s.drop_last()[j]).0@ == url;
            assert(s[j].0@ == url);
        }
        if exists|j: int| 0 <= j < s.len() && (#[trigger] s[j]).0@ == url {
            let j = choose|j: int| 0 <= j < s.len() && (#[trigger] s[j]).0@ == url;
            if j < s.len() - 1 {
                assert(s.drop_last()[j].0@ == url);
            }
        }
    }
}

proof fn lemma_images_tail(s: Seq<(String, Picture)>, k: int, url: Seq<char>)
    requires
        0 <= k <= s.len(),
        forall|j: int| k <= j < s.len() ==> (#[trigger] s[j]).0@ != url,
    ensures
        images_of(s).dom().contains(url) == images_of(s.subrange(0, k)).dom().contains(url),
        images_of(s)[url] == images_of(s.subrange(0, k))[url],
    decreases s.len(),
{
    if k == s.len() {
        assert(s.subrange(0, k) =~= s);
    } else {
        let rest = s.drop_last();
        assert(rest.subrange(0, k) =~= s.subrange(0, k));
        assert forall|j: int| k <= j < rest.len() implies (#[trigger] rest[j]).0@ != url by {
            assert(rest[j] == s[j]);
        }
        lemma_images_tail(rest, k, url);
        assert(s.last().0@ != url);
    }
}

proof fn lemma_images_update(s: Seq<(String, Picture)>, j: int, entry: (String, Picture))
    requires
        0 <= j < s.len(),
        s[j].0@ == entry.0@,
        forall|i: int| j < i < s.len() ==> (#[trigger] s[i]).0@ != entry.0@,
    ensures
        images_of(s.update(j, entry)) == images_of(s).insert(entry.0@, picture_view(entry.1)),
    decreases s.len(),
{
    let t = s.update(j, entry);
    if j == s.len() - 1 {
        assert(t.drop_last() =~= s.drop_last());
        assert(images_of(t) =~= images_of(s).insert(entry.0@, picture_view(entry.1)));
    } else {
        let rest = s.drop_last();
        assert forall|i: int| j < i < rest.len() implies (#[trigger] rest[i]).0@ != entry.0@ by {
            assert(rest[i] == s[i]);
        }
        lemma_images_update(rest, j, entry);
        assert(t.drop_last() =~= rest.update(j, entry));
        assert(s.last().0@ != entry.0@);
        assert(images_of(t) =~= images_of(s).insert(entry.0@, picture_view(entry.1)));
    }
}

fn copy_picture(p: &Picture) -> (r: Picture)
    ensures
        r == *p,
{
    match p {
        Picture::Loading => Picture::Loading,
        Picture::Shown(uri) => Picture::Shown(uri.clone()),
        Picture::Refused => Picture::Refused,
    }
}

fn same_thread(a: Option<ThreadId>, b: ThreadId) -> (r: bool)
    ensures
        r == (a == Some(b)),
{
    match a {
        Some(t) => t == b,
        None => false,
    }
}

impl Drawn {
    /// No grant, no thread shown, no image.
    pub fn new() -> (r: Drawn)
        ensures
            r@.generation == 0,
            r@.granted is None,
            r@.showing is None,
            r@.images == Map::<Seq<char>, PictureView>::empty(),
    {
        Drawn { generation: 0, granted: None, showing: None, images: Vec::new() }
    }

    fn revoke(&mut self)
        ensures
            final(self)@ == revoked(old(self)@),
    {
        self.generation = if self.generation == u64::MAX {
            0
        } else {
            self.generation + 1
        };
        self.granted = None;
        self.images = Vec::new();
        assert(self@.images =~= Map::<Seq<char>, PictureView>::empty());
    }

    /// The reader shows `thread`, with images consented (`showing`) or not. Another thread, or
    /// no consent, drops what was granted.
    pub fn hold(&mut self, thread: ThreadId, showing: bool)
        ensures
            final(self)@ == held(old(self)@, thread, showing),
    {
        self.showing = Some((thread, showing));
        if self.granted.is_some() && (!showing || !same_thread(self.granted, thread)) {
            self.revoke();
        }
    }

    /// What there is for `url` now.
    pub fn picture(&self, url: &str) -> (r: Option<Picture>)
        ensures
            r is Some <==> self@.images.dom().contains(url@),
            r matches Some(p) ==> picture_view(p) == self@.images[url@],
    {
        let ghost s = self.images@;
        let mut i: usize = self.images.len();
        while i > 0
            invariant
                i <= self.images.len(),
                s == self.images@,
                forall|j: int| i <= j < s.len() ==> (#[trigger] s[j]).0@ != url@,
            decreases i,
        {
            if str_eq(self.images[i - 1].0.as_str(), url) {
                proof {
                    lemma_images_tail(s, i as int, url@);
                    assert(s.subrange(0, i as int).drop_last() =~= s.subrange(0, i - 1));
                    assert(s.subrange(0, i as int).last() == s[i - 1]);
                }
                return Some(copy_picture(&self.images[i - 1].1));
            }
            i = i - 1;
        }
        proof {
            lemma_images_dom(s, url@);
        }
        None
    }

    /// Whether an answer fetched under `generation` is still wanted.
    pub fn stands(&self, generation: u64) -> (r: bool)
        ensures
            r == stands_spec(self@, generation),
    {
        self.generation == generation && self.granted.is_some()
    }

    fn contains(&self, url: &str) -> (r: bool)
        ensures
            r == self@.images.dom().contains(url@),
    {
        let ghost s = self.images@;
        let mut i: usize = 0;
        while i < self.images.len()
            invariant
                i <= self.images.len(),
                s == self.images@,
                forall|j: int| 0 <= j < i ==> (#[trigger] s[j]).0@ != url@,
            decreases self.images.len() - i,
        {
            if str_eq(self.images[i].0.as_str(), url) {
                proof {
                    lemma_images_dom(s, url@);
                    assert(s[i as int].0@ == url@);
                }
                return true;
            }
            i = i + 1;
        }
        proof {
            lemma_images_dom(s, url@);
        }
        false
    }

    /// Set the picture for `url`.
    fn put(&mut self, url: String, picture: Picture)
        ensures
            final(self)@ == (DrawnView {
                images: old(self)@.images.insert(url@, picture_view(picture)),
                ..old(self)@
            }),
    {
        let ghost s = self.images@;
        let mut i: usize = self.images.len();
        while i > 0
            invariant
                i <= self.images.len(),
                s == self.images@,
                *self == *old(self),
                forall|j: int| i <= j < s.len() ==> (#[trigger] s[j]).0@ != url@,
            decreases i,
        {
            if str_eq(self.images[i - 1].0.as_str(), url.as_str()) {
                let entry = (url, picture);
                proof {
                    lemma_images_update(s, i - 1, entry);
                }
                self.images.set(i - 1, entry);
                assert(self@.images =~= old(self)@.images.insert(url@, picture_view(picture)));
                return;
            }
            i = i - 1;
        }
        let ghost entry = (url, picture);
        self.images.push((url, picture));
        assert(self.images@ == s.push(entry));
        assert(self.images@.drop_last() =~= s);
        assert(self@.images =~= old(self)@.images.insert(url@, picture_view(picture)));
    }
}

impl Drawn {
    /// Grant `thread` if the reader still shows it consented, and mark those of `wanted` not
    /// asked for yet under this grant as asked: loading, or refused when there is no fetcher.
    /// Gives the generation the fetches run under and the URLs to fetch, in order.
    pub fn ask(&mut self, thread: ThreadId, wanted: &Vec<String>, has_net: bool) -> (r: (u64, Vec<String>))
        ensures
            (final(self)@, r.0, urls_of(r.1@)) == ask_spec(old(self)@, thread, urls_of(wanted@), has_net),
    {
        let consented = match self.showing {
            Some((t, yes)) => yes && t == thread,
            None => false,
        };
        if wanted.len() == 0 || !consented {
            assert(urls_of(Seq::<String>::empty()) =~= seq![]);
            return (self.generation, Vec::new());
        }
        if !same_thread(self.granted, thread) {
            self.revoke();
            self.granted = Some(thread);
        }
        let ghost g = self@;
        assert(g == granted_to(old(self)@, thread));
        let ghost all = urls_of(wanted@);
        let mut fresh: Vec<String> = Vec::new();
        let mut i: usize = 0;
        while i < wanted.len()
            invariant
                i <= wanted.len(),
                self@ == g,
                all == urls_of(wanted@),
                urls_of(fresh@) == fresh_of(all.subrange(0, i as int), g.images),
            decreases wanted.len() - i,
        {
            assert(all.subrange(0, i + 1).drop_last() =~= all.subrange(0, i as int));
            assert(all.subrange(0, i + 1).last() == wanted@[i as int]@);
            if !self.contains(wanted[i].as_str()) {
                let ghost before = fresh@;
                fresh.push(wanted[i].clone());
                assert(urls_of(fresh@) =~= urls_of(before).push(wanted@[i as int]@));
            }
            i = i + 1;
        }
        assert(all.subrange(0, wanted.len() as int) =~= all);
        let ghost urls = urls_of(fresh@);
        let mut k: usize = 0;
        while k < fresh.len()
            invariant
                k <= fresh.len(),
                urls == urls_of(fresh@),
                self@ == (DrawnView {
                    images: insert_all(g.images, urls.subrange(0, k as int), asked_picture(has_net)),
                    ..g
                }),
            decreases fresh.len() - k,
        {
            assert(urls.subrange(0, k + 1).drop_last() =~= urls.subrange(0, k as int));
            assert(urls.subrange(0, k + 1).last() == fresh@[k as int]@);
            let asked = if has_net {
                Picture::Loading
            } else {
                Picture::Refused
            };
            self.put(fresh[k].clone(), asked);
            k = k + 1;
        }
        assert(urls.subrange(0, fresh.len() as int) =~= urls);
        (self.generation, fresh)
    }

    /// An answer for `url`, fetched under `generation`: kept, as its `data:` URI or refused,
    /// when the grant still stands; dropped when it does not, which is what `false` says.
    pub fn land(&mut self, generation: u64, url: String, got: Option<Got>) -> (r: bool)
        ensures
            r == stands_spec(old(self)@, generation),
            final(self)@ == land_spec(old(self)@, generation, url@, got),
    {
        if !self.stands(generation) {
            return false;
        }
        let picture = match &got {
            Some(g) => match data_uri(g) {
                Some(uri) => Picture::Shown(uri),
                None => Picture::Refused,
            },
            None => Picture::Refused,
        };
        assert(picture_view(picture) == landed_picture(got));
        self.put(url, picture);
        true
    }
}

/// Whether `url` is a web address: `https://` or `http://`.
pub open spec fn is_web(url: Seq<char>) -> bool {
    starts_with(url, seq!['h', 't', 't', 'p', 's', ':', '/', '/']) || starts_with(
        url,
        seq!['h', 't', 't', 'p', ':', '/', '/'],
    )
}

/// The remote images that stand directly in `level`, in its order.
pub open spec fn level_images(level: Seq<Block>) -> Seq<Seq<char>>
    decreases level.len(),
{
    if level.len() == 0 {
        seq![]
    } else {
        level_images(level.drop_last()) + match level.last() {
            Block::Image { src: ImgSrc::Remote(url), .. } => seq![url@],
            _ => seq![],
        }
    }
}

/// The remote images of `level` in the order a stack of levels meets them: the level's own
/// images first, then each level nested in it, the last one first, each in full.
pub open spec fn level_order(level: Seq<Block>) -> Seq<Seq<char>>
    decreases level, 1int,
{
    level_images(level) + nested_order(level)
}

/// The images of the levels nested in `level`, the last nested level first.
pub open spec fn nested_order(level: Seq<Block>) -> Seq<Seq<char>>
    decreases level, 0int,
{
    if level.len() == 0 {
        seq![]
    } else {
        block_nested(level.last()) + nested_order(level.drop_last())
    }
}

/// The images of the levels nested in one block, the last first: a list's items, or the
/// blocks of a quote or a signature.
pub open spec fn block_nested(block: Block) -> Seq<Seq<char>>
    decreases block, 0int,
{
    match block {
        Block::List { items, .. } => items_nested(items@),
        Block::Quote { blocks, .. } => level_order(blocks@),
        Block::Signature(blocks) => level_order(blocks@),
        _ => seq![],
    }
}

/// The images of a list's items, the last item first.
pub open spec fn items_nested(items: Seq<Vec<Block>>) -> Seq<Seq<char>>
    decreases items, 0int,
{
    if items.len() == 0 {
        seq![]
    } else {
        level_order(items.last()@) + items_nested(items.drop_last())
    }
}

/// `acc` and then each web address of `urls` not in it yet.
pub open spec fn add_web(acc: Seq<Seq<char>>, urls: Seq<Seq<char>>) -> Seq<Seq<char>>
    decreases urls.len(),
{
    if urls.len() == 0 {
        acc
    } else {
        let before = add_web(acc, urls.drop_last());
        if is_web(urls.last()) && !before.contains(urls.last()) {
            before.push(urls.last())
        } else {
            before
        }
    }
}

/// The remote images of every document, one document after another, each in the order of
/// [`level_order`].
pub open spec fn docs_images(documents: Seq<&Document>) -> Seq<Seq<char>>
    decreases documents.len(),
{
    if documents.len() == 0 {
        seq![]
    } else {
        docs_images(documents.drop_last()) + level_order(documents.last().blocks@)
    }
}

proof fn lemma_add_web_concat(acc: Seq<Seq<char>>, a: Seq<Seq<char>>, b: Seq<Seq<char>>)
    ensures
        add_web(acc, a + b) == add_web(add_web(acc, a), b),
    decreases b.len(),
{
    if b.len() == 0 {
        assert(a + b =~= a);
    } else {
        lemma_add_web_concat(acc, a, b.drop_last());
        assert((a + b).drop_last() =~= a + b.drop_last());
        assert((a + b).last() == b.last());
    }
}

fn web(url: &str) -> (r: bool)
    ensures
        r == is_web(url@),
{
    proof {
        reveal_strlit("https://");
        reveal_strlit("http://");
    }
    let c = chars_of(url);
    let secure = chars_of("https://");
    let plain = chars_of("http://");
    assert(secure@ == seq!['h', 't', 't', 'p', 's', ':', '/', '/']);
    assert(plain@ == seq!['h', 't', 't', 'p', ':', '/', '/']);
    matches_at(c.as_slice(), secure.as_slice(), 0) || matches_at(c.as_slice(), plain.as_slice(), 0)
}

fn add_url(urls: &mut Vec<String>, url: &String)
    ensures
        urls_of(final(urls)@) == add_web(urls_of(old(urls)@), seq![url@]),
{
    let ghost acc = urls_of(urls@);
    assert(seq![url@].drop_last() =~= Seq::<Seq<char>>::empty());
    assert(add_web(acc, Seq::<Seq<char>>::empty()) == acc);
    assert(seq![url@].last() == url@);
    assert(add_web(acc, seq![url@]) == if is_web(url@) && !acc.contains(url@) {
        acc.push(url@)
    } else {
        acc
    });
    if !web(url.as_str()) {
        return;
    }
    let mut i: usize = 0;
    while i < urls.len()
        invariant
            i <= urls.len(),
            acc == urls_of(urls@),
            urls@ == old(urls)@,
            add_web(acc, seq![url@]) == if is_web(url@) && !acc.contains(url@) {
                acc.push(url@)
            } else {
                acc
            },
            forall|j: int| 0 <= j < i ==> (#[trigger] acc[j]) != url@,
        decreases urls.len() - i,
    {
        if str_eq(urls[i].as_str(), url.as_str()) {
            assert(acc[i as int] == url@);
            assert(acc.contains(url@));
            return;
        }
        i = i + 1;
    }
    assert(!acc.contains(url@));
    urls.push(url.clone());
    assert(urls_of(urls@) =~= acc.push(url@));
}

fn collect_level(level: &Vec<Block>, urls: &mut Vec<String>)
    ensures
        urls_of(final(urls)@) == add_web(urls_of(old(urls)@), level_order(level@)),
    decreases level,
{
    let ghost acc = urls_of(urls@);
    let mut i: usize = 0;
    while i < level.len()
        invariant
            i <= level.len(),
            urls_of(urls@) == add_web(acc, level_images(level@.subrange(0, i as int))),
        decreases level.len() - i,
    {
        proof {
            assert(level@.subrange(0, i + 1).drop_last() =~= level@.subrange(0, i as int));
            assert(level@.subrange(0, i + 1).last() == level@[i as int]);
        }
        match &level[i] {
            Block::Image { src: ImgSrc::Remote(url), .. } => {
                proof {
                    lemma_add_web_concat(acc, level_images(level@.subrange(0, i as int)), seq![url@]);
                }
                add_url(urls, url);
            },
            _ => {
                assert(level_images(level@.subrange(0, i + 1)) =~= level_images(level@.subrange(0, i as int)));
            },
        }
        i = i + 1;
    }
    assert(level@.subrange(0, level.len() as int) =~= level@);
    let ghost mid = urls_of(urls@);
    let ghost mut done: Seq<Seq<char>> = seq![];
    let mut n: usize = level.len();
    assert(nested_order(level@.subrange(0, n as int)) == nested_order(level@));
    while n > 0
        invariant
            n <= level.len(),
            urls_of(urls@) == add_web(mid, done),
            done + nested_order(level@.subrange(0, n as int)) == nested_order(level@),
        decreases n,
    {
        let ghost rest = level@.subrange(0, n - 1);
        proof {
            assert(level@.subrange(0, n as int).drop_last() =~= rest);
            assert(level@.subrange(0, n as int).last() == level@[n - 1]);
            lemma_add_web_concat(mid, done, block_nested(level@[n - 1]));
            assert(done + block_nested(level@[n - 1]) + nested_order(rest) =~= done + (block_nested(level@[n - 1]) + nested_order(rest)));
            done = done + block_nested(level@[n - 1]);
        }
        collect_nested(&level[n - 1], urls);
        n = n - 1;
    }
    proof {
        assert(done + seq![] =~= done);
        lemma_add_web_concat(acc, level_images(level@), nested_order(level@));
    }
}

fn collect_items(items: &Vec<Vec<Block>>, urls: &mut Vec<String>)
    ensures
        urls_of(final(urls)@) == add_web(urls_of(old(urls)@), items_nested(items@)),
    decreases items,
{
    let ghost acc = urls_of(urls@);
    let ghost mut done: Seq<Seq<char>> = seq![];
    let mut m: usize = items.len();
    assert(items@.subrange(0, m as int) =~= items@);
    while m > 0
        invariant
            m <= items.len(),
            urls_of(urls@) == add_web(acc, done),
            done + items_nested(items@.subrange(0, m as int)) == items_nested(items@),
        decreases m,
    {
        let ghost rest = items@.subrange(0, m - 1);
        proof {
            assert(items@.subrange(0, m as int).drop_last() =~= rest);
            assert(items@.subrange(0, m as int).last() == items@[m - 1]);
            lemma_add_web_concat(acc, done, level_order(items@[m - 1]@));
            assert(done + level_order(items@[m - 1]@) + items_nested(rest) =~= done + (level_order(items@[m - 1]@) + items_nested(rest)));
            done = done + level_order(items@[m - 1]@);
        }
        collect_level(&items[m - 1], urls);
        m = m - 1;
    }
    assert(done + seq![] =~= done);
}

fn collect_nested(block: &Block, urls: &mut Vec<String>)
    ensures
        urls_of(final(urls)@) == add_web(urls_of(old(urls)@), block_nested(*block)),
    decreases block,
{
    match block {
        Block::List { items, .. } => collect_items(items, urls),
        Block::Quote { blocks, .. } => collect_level(blocks, urls),
        Block::Signature(blocks) => collect_level(blocks, urls),
        _ => {
            assert(block_nested(*block) == Seq::<Seq<char>>::empty());
            assert(add_web(urls_of(urls@), seq![]) == urls_of(urls@));
        },
    }
}

/// The `http(s)` URLs of the remote images in `documents`, nested ones included, each once.
/// Each document is walked as a stack of levels: a level's own images, then its nested levels,
/// the last one first.
pub fn wanted(documents: &Vec<&Document>) -> (r: Vec<String>)
    ensures
        urls_of(r@) == add_web(seq![], docs_images(documents@)),
{
    let mut urls: Vec<String> = Vec::new();
    assert(urls_of(urls@) =~= seq![]);
    let mut d: usize = 0;
    while d < documents.len()
        invariant
            d <= documents.len(),
            urls_of(urls@) == add_web(seq![], docs_images(documents@.subrange(0, d as int))),
        decreases documents.len() - d,
    {
        collect_level(&documents[d].blocks, &mut urls);
        proof {
            assert(documents@.subrange(0, d + 1).drop_last() =~= documents@.subrange(0, d as int));
            assert(documents@.subrange(0, d + 1).last() == documents@[d as int]);
            lemma_add_web_concat(
                seq![],
                docs_images(documents@.subrange(0, d as int)),
                level_order(documents@[d as int].blocks@),
            );
        }
        d = d + 1;
    }
    assert(documents@.subrange(0, documents.len() as int) =~= documents@);
    urls
}

proof fn lemma_insert_all_dom(m: Map<Seq<char>, PictureView>, urls: Seq<Seq<char>>, p: PictureView, u: Seq<char>)
    ensures
        insert_all(m, urls, p).dom().contains(u) <==> (m.dom().contains(u) || urls.contains(u)),
    decreases urls.len(),
{
    if urls.len() > 0 {
        lemma_insert_all_dom(m, urls.drop_last(), p, u);
        if urls.contains(u) && u != urls.last() {
            let j = choose|j: int| 0 <= j < urls.len() && urls[j] == u;
            assert(urls.drop_last()[j] == u);
        }
        if urls.drop_last().contains(u) {
            let j = choose|j: int| 0 <= j < urls.drop_last().len() && urls.drop_last()[j] == u;
            assert(urls[j] == u);
        }
        if u == urls.last() {
            assert(urls[urls.len() - 1] == u);
        }
    }
}

proof fn lemma_fresh_covers(wanted: Seq<Seq<char>>, m: Map<Seq<char>, PictureView>, u: Seq<char>)
    requires
        wanted.contains(u),
    ensures
        m.dom().contains(u) || fresh_of(wanted, m).contains(u),
    decreases wanted.len(),
{
    if u == wanted.last() {
        if !m.dom().contains(u) {
            let f = fresh_of(wanted, m);
            assert(f[f.len() - 1] == u);
        }
    } else {
        let j = choose|j: int| 0 <= j < wanted.len() && wanted[j] == u;
        assert(wanted.drop_last()[j] == u);
        lemma_fresh_covers(wanted.drop_last(), m, u);
        if fresh_of(wanted.drop_last(), m).contains(u) {
            let f = fresh_of(wanted.drop_last(), m);
            let k = choose|k: int| 0 <= k < f.len() && f[k] == u;
            assert(fresh_of(wanted, m)[k] == u);
        }
    }
}

proof fn lemma_fresh_none(wanted: Seq<Seq<char>>, m: Map<Seq<char>, PictureView>)
    requires
        forall|j: int| 0 <= j < wanted.len() ==> m.dom().contains(#[trigger] wanted[j]),
    ensures
        fresh_of(wanted, m).len() == 0,
    decreases wanted.len(),
{
    if wanted.len() > 0 {
        assert(m.dom().contains(wanted[wanted.len() - 1]));
        lemma_fresh_none(wanted.drop_last(), m);
    }
}

/// Each image is asked for once per grant: asking again for what was just asked for, for the
/// same thread, asks for nothing and changes nothing, whatever the fetcher.
pub proof fn law_each_image_once_per_grant(
    d: DrawnView,
    thread: ThreadId,
    wanted: Seq<Seq<char>>,
    has_net: bool,
    has_net_again: bool,
)
    ensures
        ({
            let (after, generation, _) = ask_spec(d, thread, wanted, has_net);
            let (again, generation_again, fresh) = ask_spec(after, thread, wanted, has_net_again);
            fresh.len() == 0 && again == after && generation_again == generation
        }),
{
    let (after, generation, first) = ask_spec(d, thread, wanted, has_net);
    if wanted.len() > 0 && consents(d, thread) {
        let g = granted_to(d, thread);
        assert forall|j: int| 0 <= j < wanted.len() implies after.images.dom().contains(
            #[trigger] wanted[j],
        ) by {
            assert(wanted.contains(wanted[j]));
            lemma_fresh_covers(wanted, g.images, wanted[j]);
            lemma_insert_all_dom(g.images, first, asked_picture(has_net), wanted[j]);
        }
        lemma_fresh_none(wanted, after.images);
        assert(granted_to(after, thread) == after);
        let (again, _, fresh) = ask_spec(after, thread, wanted, has_net_again);
        assert(insert_all(after.images, fresh, asked_picture(has_net_again)) == after.images);
        assert(again =~= after);
    }
}

/// Nothing is asked for unless the reader shows the thread with its images consented.
pub proof fn law_nothing_before_consent(d: DrawnView, thread: ThreadId, wanted: Seq<Seq<char>>, has_net: bool)
    requires
        !consents(d, thread),
    ensures
        ask_spec(d, thread, wanted, has_net) == (d, d.generation, Seq::<Seq<char>>::empty()),
{
}

/// Another thread, or the consent cleared, takes the grant back: an answer fetched under it
/// is dropped and changes nothing, and so is every later one.
pub proof fn law_revoked_answers_are_dropped(
    d: DrawnView,
    thread: ThreadId,
    showing: bool,
    generation: u64,
    url: Seq<char>,
    got: Option<Got>,
)
    requires
        stands_spec(d, generation),
        !showing || d.granted != Some(thread),
    ensures
        !stands_spec(held(d, thread, showing), generation),
        held(d, thread, showing).images == Map::<Seq<char>, PictureView>::empty(),
        land_spec(held(d, thread, showing), generation, url, got) == held(d, thread, showing),
{
    assert(held(d, thread, showing).images =~= Map::<Seq<char>, PictureView>::empty());
}

/// The URLs wanted are web addresses, each once, and every web address of a remote image is
/// among them.
pub proof fn law_wanted_each_once(urls: Seq<Seq<char>>)
    ensures
        add_web(seq![], urls).no_duplicates(),
        forall|u: Seq<char>| #[trigger] add_web(seq![], urls).contains(u) <==> (is_web(u) && urls.contains(u)),
{
    lemma_add_web(seq![], urls);
}

proof fn lemma_add_web(acc: Seq<Seq<char>>, urls: Seq<Seq<char>>)
    requires
        acc.no_duplicates(),
    ensures
        add_web(acc, urls).no_duplicates(),
        forall|u: Seq<char>| #[trigger] add_web(acc, urls).contains(u) <==> (acc.contains(u) || (
            is_web(u) && urls.contains(u))),
    decreases urls.len(),
{
    if urls.len() > 0 {
        let rest = urls.drop_last();
        let x = urls.last();
        lemma_add_web(acc, rest);
        let before = add_web(acc, rest);
        assert forall|u: Seq<char>| #[trigger] add_web(acc, urls).contains(u) <==> (acc.contains(u) || (
            is_web(u) && urls.contains(u))) by {
            if urls.contains(u) && u != x {
                let j = choose|j: int| 0 <= j < urls.len() && urls[j] == u;
                assert(rest[j] == u);
            }
            if rest.contains(u) {
                let j = choose|j: int| 0 <= j < rest.len() && rest[j] == u;
                assert(urls[j] == u);
            }
            if u == x {
                assert(urls[urls.len() - 1] == u);
            }
            if is_web(x) && !before.contains(x) {
                assert(before.push(x)[before.len() as int] == x);
                if before.contains(u) {
                    let k = choose|k: int| 0 <= k < before.len() && before[k] == u;
                    assert(before.push(x)[k] == u);
                }
                if before.push(x).contains(u) && u != x {
                    let k = choose|k: int| 0 <= k < before.push(x).len() && before.push(x)[k] == u;
                    assert(before[k] == u);
                }
            }
        }
    }
}

proof fn lemma_fresh_members(wanted: Seq<Seq<char>>, m: Map<Seq<char>, PictureView>, u: Seq<char>)
    ensures
        fresh_of(wanted, m).contains(u) <==> (wanted.contains(u) && !m.dom().contains(u)),
    decreases wanted.len(),
{
    if wanted.len() > 0 {
        let pre = wanted.drop_last();
        lemma_fresh_members(pre, m, u);
        let f = fresh_of(pre, m);
        if wanted.contains(u) && !m.dom().contains(u) {
            lemma_fresh_covers(wanted, m, u);
        }
        if fresh_of(wanted, m).contains(u) {
            let g = fresh_of(wanted, m);
            let k = choose|k: int| 0 <= k < g.len() && g[k] == u;
            if !m.dom().contains(wanted.last()) && k == g.len() - 1 {
                assert(u == wanted.last());
                assert(wanted[wanted.len() - 1] == u);
            } else {
                assert(f[k] == u);
                let j = choose|j: int| 0 <= j < pre.len() && pre[j] == u;
                assert(wanted[j] == u);
            }
        }
    }
}

proof fn lemma_fresh_distinct(wanted: Seq<Seq<char>>, m: Map<Seq<char>, PictureView>)
    requires
        wanted.no_duplicates(),
    ensures
        fresh_of(wanted, m).no_duplicates(),
    decreases wanted.len(),
{
    if wanted.len() > 0 {
        let pre = wanted.drop_last();
        assert(pre.no_duplicates()) by {
            assert forall|i: int, j: int| 0 <= i < pre.len() && 0 <= j < pre.len() && i != j implies pre[i] != pre[j] by {
                assert(wanted[i] == pre[i] && wanted[j] == pre[j]);
            }
        }
        lemma_fresh_distinct(pre, m);
        lemma_fresh_members(pre, m, wanted.last());
        if pre.contains(wanted.last()) {
            let j = choose|j: int| 0 <= j < pre.len() && pre[j] == wanted.last();
            assert(wanted[j] == wanted[wanted.len() - 1]);
        }
    }
}

proof fn lemma_insert_all_value(m: Map<Seq<char>, PictureView>, urls: Seq<Seq<char>>, p: PictureView, u: Seq<char>)
    requires
        urls.contains(u),
    ensures
        insert_all(m, urls, p)[u] == p,
    decreases urls.len(),
{
    if u != urls.last() {
        let j = choose|j: int| 0 <= j < urls.len() && urls[j] == u;
        assert(urls.drop_last()[j] == u);
        lemma_insert_all_value(m, urls.drop_last(), p, u);
    }
}

/// A fetch asks for exactly what is not held yet: with the reader showing `thread` consented
/// and something wanted, the URLs fetched are those wanted that the grant does not hold (a new
/// grant holds nothing), each once when none is wanted twice, and each reads as loading, or as
/// refused when there is no fetcher, until its answer lands. Otherwise nothing is fetched and
/// nothing changes.
pub proof fn law_a_fetch_asks_for_exactly_what_is_not_held(
    d: DrawnView,
    thread: ThreadId,
    wanted: Seq<Seq<char>>,
    has_net: bool,
    u: Seq<char>,
)
    ensures
        (wanted.len() == 0 || !consents(d, thread)) ==> ask_spec(d, thread, wanted, has_net) == (d, d.generation, Seq::<Seq<char>>::empty()),
        d.granted != Some(thread) ==> granted_to(d, thread).images == Map::<Seq<char>, PictureView>::empty(),
        (wanted.len() > 0 && consents(d, thread)) ==> {
            &&& ask_spec(d, thread, wanted, has_net).2.contains(u)
                <==> (wanted.contains(u) && !granted_to(d, thread).images.dom().contains(u))
            &&& ask_spec(d, thread, wanted, has_net).2.contains(u)
                ==> ask_spec(d, thread, wanted, has_net).0.images[u] == asked_picture(has_net)
            &&& wanted.no_duplicates() ==> ask_spec(d, thread, wanted, has_net).2.no_duplicates()
        },
{
    if wanted.len() > 0 && consents(d, thread) {
        let g = granted_to(d, thread);
        lemma_fresh_members(wanted, g.images, u);
        let fresh = fresh_of(wanted, g.images);
        if fresh.contains(u) {
            lemma_insert_all_value(g.images, fresh, asked_picture(has_net), u);
        }
        if wanted.no_duplicates() {
            lemma_fresh_distinct(wanted, g.images);
        }
    }
}

} // verus!
