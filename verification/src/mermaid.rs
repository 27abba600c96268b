//! Diagrams: which of them are still to be drawn, how large they become, and the images drawn so
//! far.
use crate::block::{blocks_wf, Block, BlockV, ImageV, RenderedImage};
use crate::render::content_width;
use crate::text::{owned, padding};
use std::collections::hash_map::DefaultHasher;
use std::collections::HashMap;
use std::hash::Hasher;
use vstd::prelude::*;
use vstd::std_specs::hash::DefaultHasherAdditionalSpecFns;
use vstd::utf8::{encode_utf8, encode_utf8_decode_utf8};

verus! {

/// The distance between the nodes of a diagram.
pub const NODE_SPACING: u16 = 80;

/// The distance between the ranks of a diagram.
pub const RANK_SPACING: u16 = 60;

/// The width in pixels that a diagram is enlarged to fill, but to no more than three times its
/// size.
pub const MAX_IMG_W: u32 = 1600;

/// The height in pixels that a diagram is enlarged to fill, but to no more than three times its
/// size.
pub const MAX_IMG_H: u32 = 1200;

/// The key of a diagram: the hash of its source, as bytes that an end mark follows.
pub open spec fn source_key(source: Seq<char>) -> u64 {
    DefaultHasher::spec_finish(seq![encode_utf8(source), seq![0xffu8]])
}

/// Hash a mermaid source string for cache lookup.
pub fn hash_source(s: &str) -> (key: u64)
    ensures
        key == source_key(s@),
{
    let mut hasher = DefaultHasher::new();
    hasher.write(s.as_bytes());
    let end: [u8; 1] = [0xff];
    hasher.write(&end);
    assert(end@ =~= seq![0xffu8]);
    assert(hasher@ =~= seq![encode_utf8(s@), seq![0xffu8]]);
    hasher.finish()
}

/// Whether the key of every diagram is the hash of what `input` makes of its source, and `input`
/// makes something else of every other source.
pub open spec fn keys_are_hashes_of(input: spec_fn(Seq<char>) -> Seq<Seq<u8>>) -> bool {
    &&& forall|s: Seq<char>| #[trigger] source_key(s) == DefaultHasher::spec_finish(input(s))
    &&& forall|s: Seq<char>, t: Seq<char>| #[trigger] input(s) == #[trigger] input(t) ==> s == t
}

/// The key of a diagram is the hash of its whole source, and what is hashed determines the source:
/// different sources are different inputs of the hash function, so they share a key only where that
/// function gives the same number for both.
pub proof fn law_whole_source_is_hashed(source: Seq<char>)
    ensures
        source_key(source) == DefaultHasher::spec_finish(seq![encode_utf8(source), seq![0xffu8]]),
        keys_are_hashes_of(|s: Seq<char>| seq![encode_utf8(s), seq![0xffu8]]),
{
    let input = |s: Seq<char>| seq![encode_utf8(s), seq![0xffu8]];
    assert forall|s: Seq<char>, t: Seq<char>| #[trigger] input(s) == #[trigger] input(t) implies s
        == t by {
        assert(input(s)[0] == input(t)[0]);
        encode_utf8_decode_utf8(s);
        encode_utf8_decode_utf8(t);
    }
}

/// Two diagrams share a key only if the hash function gives the same number for different inputs:
/// an image is found for another diagram than its own in no other way.
pub proof fn law_found_image_is_of_the_diagram(
    images: Map<u64, ImageV>,
    source: Seq<char>,
    drawn: Option<ImageV>,
    other: Seq<char>,
)
    requires
        other != source,
        found(stored(images, source, drawn), other) != found(images, other),
    ensures
        exists|x: Seq<Seq<u8>>, y: Seq<Seq<u8>>|
            x != y && #[trigger] DefaultHasher::spec_finish(x)
                == #[trigger] DefaultHasher::spec_finish(y),
{
    let x = seq![encode_utf8(source), seq![0xffu8]];
    let y = seq![encode_utf8(other), seq![0xffu8]];
    encode_utf8_decode_utf8(source);
    encode_utf8_decode_utf8(other);
    assert(x[0] != y[0]);
    assert(DefaultHasher::spec_finish(x) == DefaultHasher::spec_finish(y));
}

/// The image found for a diagram.
pub open spec fn found(images: Map<u64, ImageV>, source: Seq<char>) -> Option<ImageV> {
    if images.contains_key(source_key(source)) {
        Some(images[source_key(source)])
    } else {
        None
    }
}

/// What was drawn for a diagram, if it has four bytes for each pixel.
pub open spec fn accepted(drawn: Option<ImageV>) -> Option<ImageV> {
    match drawn {
        Some(image) if image.wf() => Some(image),
        _ => None,
    }
}

/// The images with what was drawn for a diagram, if it is accepted.
pub open spec fn stored(
    images: Map<u64, ImageV>,
    source: Seq<char>,
    drawn: Option<ImageV>,
) -> Map<u64, ImageV> {
    match accepted(drawn) {
        Some(image) => images.insert(source_key(source), image),
        None => images,
    }
}

/// The images drawn so far, by the keys of their diagrams.
pub struct MermaidCache {
    images: HashMap<u64, RenderedImage>,
}

impl View for MermaidCache {
    type V = Map<u64, ImageV>;

    closed spec fn view(&self) -> Map<u64, ImageV> {
        self.images@.map_values(|image: RenderedImage| image.deep_view())
    }
}

/// Whether every image has four bytes for each pixel.
pub open spec fn images_wf(images: Map<u64, ImageV>) -> bool {
    forall|key: u64| #[trigger] images.contains_key(key) ==> images[key].wf()
}

impl MermaidCache {
    /// A cache without images.
    pub fn new() -> (cache: MermaidCache)
        ensures
            cache@ == Map::<u64, ImageV>::empty(),
            images_wf(cache@),
    {
        let cache = MermaidCache { images: HashMap::new() };
        assert(cache@ =~= Map::<u64, ImageV>::empty());
        cache
    }

    /// The image of a diagram, if it was drawn before.
    pub fn lookup(&self, source: &str) -> (image: Option<RenderedImage>)
        ensures
            image.deep_view() == found(self@, source@),
            images_wf(self@) && image is Some ==> image->0.deep_view().wf(),
    {
        let key: u64 = hash_source(source);
        match self.images.get(&key) {
            Some(image) => Some(image.clone()),
            None => None,
        }
    }

    /// Keeps what was drawn for a diagram as its image, and returns it. Does neither if drawing it
    /// failed or if there are not four bytes for each pixel.
    pub fn store(&mut self, source: &str, drawn: Option<RenderedImage>) -> (image: Option<
        RenderedImage,
    >)
        ensures
            final(self)@ == stored(old(self)@, source@, drawn.deep_view()),
            image.deep_view() == accepted(drawn.deep_view()),
            images_wf(old(self)@) ==> images_wf(final(self)@),
    {
        let ghost before = self@;
        let image = match drawn {
            Some(image) => image,
            None => {
                return None;
            },
        };
        let width: u32 = image.width;
        let height: u32 = image.height;
        assert(width * height <= 0xffff_ffff * 0xffff_ffff) by (nonlinear_arith)
            requires
                width <= 0xffff_ffff,
                height <= 0xffff_ffff,
        ;
        let expected: u128 = (width as u128) * (height as u128) * 4;
        if image.rgba.len() as u128 != expected {
            return None;
        }
        let key: u64 = hash_source(source);
        self.images.insert(key, image.clone());
        assert(self@ =~= before.insert(key, image.deep_view()));
        Some(image)
    }
}

/// What was accepted for a diagram is found for it from then on, and what is found for a diagram
/// with another key stays the same.
pub proof fn law_stored_is_found(
    images: Map<u64, ImageV>,
    source: Seq<char>,
    drawn: Option<ImageV>,
    other: Seq<char>,
)
    ensures
        accepted(drawn) is Some ==> found(stored(images, source, drawn), source) == accepted(drawn),
        accepted(drawn) is None ==> stored(images, source, drawn) == images,
        source_key(other) != source_key(source) ==> found(stored(images, source, drawn), other)
            == found(images, other),
{
}

/// The diagrams that have no image yet: the index of each one's block, and its source.
pub open spec fn jobs_of(blocks: Seq<BlockV>) -> Seq<(usize, Seq<char>)>
    decreases blocks.len(),
{
    if blocks.len() == 0 {
        Seq::empty()
    } else {
        let rest = jobs_of(blocks.drop_last());
        match blocks.last() {
            BlockV::Mermaid { source, image: None } => rest.push(
                ((blocks.len() - 1) as usize, source),
            ),
            _ => rest,
        }
    }
}

/// Collects the diagrams that have no image yet, with the indices of their blocks.
pub fn pending_jobs(blocks: &[Block]) -> (jobs: Vec<(usize, String)>)
    ensures
        jobs.deep_view() == jobs_of(blocks.deep_view()),
{
    let ghost all = blocks.deep_view();
    let mut jobs: Vec<(usize, String)> = Vec::new();
    let mut i: usize = 0;
    assert(jobs.deep_view() =~= jobs_of(all.take(0)));
    while i < blocks.len()
        invariant
            i <= blocks@.len(),
            all == blocks.deep_view(),
            jobs.deep_view() == jobs_of(all.take(i as int)),
        decreases blocks@.len() - i,
    {
        let ghost done = jobs.deep_view();
        let ghost next = all.take(i + 1);
        assert(next.drop_last() =~= all.take(i as int));
        assert(next.last() == blocks@[i as int].deep_view());
        if let Block::Mermaid { source, image: None } = &blocks[i] {
            jobs.push((i, owned(source.as_str())));
            assert(jobs.deep_view() =~= done.push((i, source@)));
        }
        i += 1;
    }
    assert(all.take(all.len() as int) =~= all);
    jobs
}

/// The blocks with the image of one of them; the same ones if that is no diagram.
pub open spec fn placed(blocks: Seq<BlockV>, index: usize, image: ImageV) -> Seq<BlockV> {
    if index < blocks.len() {
        match blocks[index as int] {
            BlockV::Mermaid { source, image: _ } => blocks.update(
                index as int,
                BlockV::Mermaid { source, image: Some(image) },
            ),
            _ => blocks,
        }
    } else {
        blocks
    }
}

/// Gives the diagram with the given index its image. Any other index changes nothing.
pub fn place_image(blocks: &mut Vec<Block>, index: usize, image: RenderedImage)
    ensures
        final(blocks).deep_view() == placed(old(blocks).deep_view(), index, image.deep_view()),
        blocks_wf(old(blocks).deep_view()) && image.deep_view().wf() ==> blocks_wf(
            final(blocks).deep_view(),
        ),
{
    let ghost before = blocks.deep_view();
    if index < blocks.len() {
        let diagram = match &blocks[index] {
            Block::Mermaid { source, image: _ } => Some(owned(source.as_str())),
            _ => None,
        };
        if let Some(source) = diagram {
            blocks.set(index, Block::Mermaid { source, image: Some(image) });
        }
    }
    assert(blocks.deep_view() =~= placed(before, index, image.deep_view()));
}

/// The jobs are exactly the diagrams without an image, in the order of their blocks: each job is
/// one, with its source; each one is a job; and the indices grow.
pub proof fn law_jobs_are_the_pending_diagrams(blocks: Seq<BlockV>)
    requires
        blocks.len() <= usize::MAX,
    ensures
        forall|k: int|
            0 <= k < jobs_of(blocks).len() ==> {
                let job = #[trigger] jobs_of(blocks)[k];
                &&& job.0 < blocks.len()
                &&& blocks[job.0 as int] == (BlockV::Mermaid { source: job.1, image: None })
            },
        forall|i: int|
            0 <= i < blocks.len() && (#[trigger] blocks[i]).is_pending() ==> exists|k: int|
                0 <= k < jobs_of(blocks).len() && (#[trigger] jobs_of(blocks)[k]).0 == i,
        forall|j: int, k: int|
            0 <= j < k < jobs_of(blocks).len() ==> (#[trigger] jobs_of(blocks)[j]).0 < (
            #[trigger] jobs_of(blocks)[k]).0,
    decreases blocks.len(),
{
    if blocks.len() > 0 {
        let rest = blocks.drop_last();
        let jobs = jobs_of(blocks);
        law_jobs_are_the_pending_diagrams(rest);
        assert forall|k: int| 0 <= k < jobs.len() implies {
            let job = #[trigger] jobs[k];
            &&& job.0 < blocks.len()
            &&& blocks[job.0 as int] == (BlockV::Mermaid { source: job.1, image: None })
        } by {
            if k < jobs_of(rest).len() {
                assert(jobs[k] == jobs_of(rest)[k]);
                assert(rest[jobs[k].0 as int] == blocks[jobs[k].0 as int]);
            }
        }
        assert forall|i: int| 0 <= i < blocks.len() && (
        #[trigger] blocks[i]).is_pending() implies exists|k: int|
            0 <= k < jobs.len() && (#[trigger] jobs[k]).0 == i by {
            if i < rest.len() {
                assert(rest[i].is_pending());
                let k = choose|k: int|
                    0 <= k < jobs_of(rest).len() && (#[trigger] jobs_of(rest)[k]).0 == i;
                assert(jobs[k] == jobs_of(rest)[k]);
            } else {
                assert(jobs[jobs.len() - 1].0 == i);
            }
        }
        assert forall|j: int, k: int| 0 <= j < k < jobs.len() implies (#[trigger] jobs[j]).0 < (
        #[trigger] jobs[k]).0 by {
            assert(jobs[j] == jobs_of(rest)[j]);
            if k < jobs_of(rest).len() {
                assert(jobs[k] == jobs_of(rest)[k]);
            }
        }
    }
}

/// An image that is placed ends the job of its diagram and no other job.
pub proof fn law_placed_ends_one_job(blocks: Seq<BlockV>, index: usize, image: ImageV)
    requires
        blocks.len() <= usize::MAX,
    ensures
        jobs_of(placed(blocks, index, image)) == jobs_of(blocks).filter(
            |job: (usize, Seq<char>)| job.0 != index,
        ),
    decreases blocks.len(),
{
    let other = |job: (usize, Seq<char>)| job.0 != index;
    let after = placed(blocks, index, image);
    if blocks.len() == 0 {
        assert(jobs_of(blocks).filter(other) =~= Seq::empty());
    } else {
        let rest = blocks.drop_last();
        law_placed_ends_one_job(rest, index, image);
        assert(after.drop_last() =~= placed(rest, index, image));
        if index == blocks.len() - 1 {
            assert(placed(rest, index, image) == rest);
        }
        reveal(Seq::filter);
        if blocks.last().is_pending() {
            assert(jobs_of(blocks).drop_last() =~= jobs_of(rest));
        }
    }
}

/// An image that is placed changes no other block, nor the source of its diagram; and images for
/// two diagrams can be placed in either order.
pub proof fn law_placed_images_are_independent(
    blocks: Seq<BlockV>,
    i: usize,
    first: ImageV,
    j: usize,
    second: ImageV,
)
    requires
        i != j,
    ensures
        placed(blocks, i, first).len() == blocks.len(),
        forall|k: int|
            0 <= k < blocks.len() && k != i ==> #[trigger] placed(blocks, i, first)[k] == blocks[k],
        i < blocks.len() ==> (blocks[i as int] matches BlockV::Mermaid { source, image: _ }
            ==> placed(blocks, i, first)[i as int] == (BlockV::Mermaid {
            source,
            image: Some(first),
        })),
        placed(placed(blocks, i, first), j, second) == placed(placed(blocks, j, second), i, first),
{
    assert(placed(placed(blocks, i, first), j, second) =~= placed(
        placed(blocks, j, second),
        i,
        first,
    ));
}

/// A number of pixels as an even one, and not less than 16.
pub open spec fn even_pixels(n: u32) -> int {
    if n < 16 {
        16
    } else {
        n - n % 2
    }
}

/// Ensure even dimensions (some terminals/protocols handle odd sizes poorly).
pub fn even_dimension(n: u32) -> (r: u32)
    ensures
        r == even_pixels(n),
        r % 2 == 0,
        r >= 16,
{
    let least: u32 = if n < 16 {
        16
    } else {
        n
    };
    assert(least & !1u32 == least - least % 2) by (bit_vector);
    least & !1
}

/// The rows that a diagram may take: two thirds of those of the terminal.
pub fn max_diagram_rows(term_rows: u16) -> (rows: u32)
    ensures
        rows == term_rows as int * 2 / 3,
{
    (term_rows as u32) * 2 / 3
}

/// The smaller of two numbers.
pub open spec fn lesser(a: int, b: int) -> int {
    if a <= b {
        a
    } else {
        b
    }
}

/// The larger of two numbers.
pub open spec fn larger(a: int, b: int) -> int {
    if a >= b {
        a
    } else {
        b
    }
}

/// The columns that suit a diagram: nine tenths of the content's width if it is wide and else two
/// thirds, or one for each six of its pixels if these are fewer; at least 30, but eight less than
/// those of the terminal at most.
pub open spec fn suitable_columns(width: int, wide: bool, img_width: int, term_cols: int) -> int {
    let share = if wide {
        width * 9 / 10
    } else {
        width * 2 / 3
    };
    lesser(larger(lesser(share, img_width / 6), 30), term_cols - 8)
}

/// Calculates the columns for a diagram, as long as it fits the rows. `wide` says whether it is
/// more than one and a half times as wide as it is high.
pub fn preferred_columns(term_cols: u16, wide: bool, img_width: u32) -> (cols: u32)
    requires
        term_cols >= 8,
    ensures
        cols == suitable_columns(
            padding(term_cols as nat, 10) as int,
            wide,
            img_width as int,
            term_cols as int,
        ),
{
    let width: u32 = content_width(term_cols) as u32;
    let share: u32 = if wide {
        width * 9 / 10
    } else {
        width * 2 / 3
    };
    let mut cols: u32 = img_width / 6;
    if share < cols {
        cols = share;
    }
    if cols < 30 {
        cols = 30;
    }
    let limit: u32 = term_cols as u32 - 8;
    if cols > limit {
        cols = limit;
    }
    cols
}

/// The columns for a diagram that would take `est_rows` rows: those given while the rows are not
/// more than it may take; else `fitting`, the columns at which they are, but at least 20.
pub fn limited_columns(cols: u32, est_rows: u32, max_rows: u32, fitting: u32) -> (r: u32)
    ensures
        r == if est_rows > max_rows {
            larger(fitting as int, 20)
        } else {
            cols as int
        },
{
    if est_rows > max_rows {
        if fitting < 20 {
            20
        } else {
            fitting
        }
    } else {
        cols
    }
}

/// The rows for a diagram that is drawn with half blocks: at least four.
pub fn half_block_rows(rows: u32) -> (r: u32)
    ensures
        r == larger(rows as int, 4),
{
    if rows < 4 {
        4
    } else {
        rows
    }
}

/// An image with four bytes for each pixel is kept for its diagram and found again, whatever was
/// kept before; anything else, and drawing that failed, changes nothing.
pub proof fn law_whole_images_are_kept(
    images: Map<u64, ImageV>,
    source: Seq<char>,
    image: ImageV,
    later: ImageV,
)
    ensures
        image.rgba.len() == image.width * image.height * 4 ==> {
            &&& accepted(Some(image)) == Some(image)
            &&& found(stored(images, source, Some(image)), source) == Some(image)
        },
        image.rgba.len() != image.width * image.height * 4 ==> {
            &&& accepted(Some(image)) is None
            &&& stored(images, source, Some(image)) == images
        },
        accepted(None) is None,
        stored(images, source, None) == images,
        later.rgba.len() == later.width * later.height * 4 ==> found(
            stored(stored(images, source, Some(image)), source, Some(later)),
            source,
        ) == Some(later),
        found(Map::empty(), source) is None,
{
}

/// An even number of pixels is as large as it can be without more than there are, but not less than
/// sixteen.
pub proof fn law_even_pixels(n: u32, other: int)
    ensures
        even_pixels(n) % 2 == 0,
        even_pixels(n) >= 16,
        n >= 16 ==> even_pixels(n) <= n,
        other % 2 == 0 && 16 <= other <= n ==> other <= even_pixels(n),
        n < 16 ==> even_pixels(n) == 16,
{
}

/// The columns for a diagram leave eight of the terminal free. They are 30 if these fit, or more if
/// the image has six pixels for each and the share of the width allows them: nine tenths for a wide
/// one, else two thirds. They are the most that this allows.
pub proof fn law_suitable_columns(width: int, wide: bool, img_width: int, term_cols: int, other: int)
    requires
        width >= 0,
        img_width >= 0,
    ensures
        ({
            let cols = suitable_columns(width, wide, img_width, term_cols);
            let fits = |n: int|
                {
                    &&& n <= term_cols - 8
                    &&& n <= 30 || (6 * n <= img_width && if wide {
                        10 * n <= 9 * width
                    } else {
                        3 * n <= 2 * width
                    })
                };
            fits(cols) && (fits(other) ==> other <= cols)
        }),
{
}

/// Of two numbers, the lesser and the larger one are these two, in order.
pub proof fn law_lesser_and_larger(a: int, b: int)
    ensures
        lesser(a, b) <= larger(a, b),
        (lesser(a, b) == a && larger(a, b) == b) || (lesser(a, b) == b && larger(a, b) == a),
{
}

} // verus!
