use vstd::prelude::*;
use crate::text::{chars_of, extend_chars, string_of};

verus! {

/// How finely a page is rasterised: a blurry placeholder, a quick draft, or
/// full resolution.
#[derive(Clone, Copy, PartialEq, Eq, Structural, Debug, Hash, PartialOrd, Ord)]
pub enum RenderQuality {
    Fuzzy,
    Draft,
    High,
}

impl RenderQuality {
    /// The position of the quality in the order Fuzzy < Draft < High.
    pub open spec fn spec_rank(self) -> u8 {
        match self {
            RenderQuality::Fuzzy => 0,
            RenderQuality::Draft => 1,
            RenderQuality::High => 2,
        }
    }

    pub fn rank(self) -> (r: u8)
        ensures
            r == self.spec_rank(),
    {
        match self {
            RenderQuality::Fuzzy => 0,
            RenderQuality::Draft => 1,
            RenderQuality::High => 2,
        }
    }

    /// `self` is at least as fine as `other`.
    pub fn at_least(self, other: RenderQuality) -> (r: bool)
        ensures
            r == (self.spec_rank() >= other.spec_rank()),
    {
        self.rank() >= other.rank()
    }
}

/// An entry of a document outline.
#[derive(Debug)]
pub struct TocItem {
    pub title: String,
    pub page_index: usize,
    pub children: Vec<TocItem>,
}

impl TocItem {
    /// An outline entry: one without a destination leads to the first page.
    pub fn entry(title: String, destination: Option<usize>, children: Vec<TocItem>) -> (r: TocItem)
        ensures
            r.title@ == title@,
            r.page_index == (match destination {
                Some(p) => p,
                None => 0,
            }),
            r.children@ == children@,
    {
        let page_index = match destination {
            Some(p) => p,
            None => 0,
        };
        TocItem { title, page_index, children }
    }
}


/// Saturation below which a pixel counts as grey: such pixels are inverted
/// by the night filter, colourful ones only dimmed.
pub const NIGHT_SATURATION_THRESHOLD: i16 = 35;

/// The largest of three integers.
pub open spec fn max3(a: int, b: int, c: int) -> int {
    if a >= b && a >= c { a } else if b >= c { b } else { c }
}

/// The smallest of three integers.
pub open spec fn min3(a: int, b: int, c: int) -> int {
    if a <= b && a <= c { a } else if b <= c { b } else { c }
}

/// A pixel's colour channel after the night filter: near-grey pixels are
/// inverted, colourful ones dimmed to nine tenths.
pub open spec fn night_channel(r: u8, g: u8, b: u8, x: u8) -> u8 {
    if max3(r as int, g as int, b as int) - min3(r as int, g as int, b as int) < 35 {
        (255 - x) as u8
    } else {
        ((x as int * 9) / 10) as u8
    }
}

/// The byte at position `i` of a buffer after the night filter.
pub open spec fn night_byte(old: Seq<u8>, i: int) -> u8 {
    let p = i - i % 4;
    if p + 4 <= old.len() && i % 4 < 3 {
        night_channel(old[p], old[p + 1], old[p + 2], old[i])
    } else {
        old[i]
    }
}

/// Darkens an RGBA buffer for reading at night, pixel by pixel: near-grey
/// pixels (paper, text) are inverted, colourful ones dimmed to nine tenths.
/// Alpha and a trailing partial pixel are left as they are.
pub fn apply_smart_night_mode_filter(rgba: &mut [u8])
    ensures
        final(rgba)@.len() == old(rgba)@.len(),
        forall|i: int| 0 <= i < old(rgba)@.len() ==> #[trigger] final(rgba)@[i] == night_byte(old(rgba)@, i),
{
    let n = rgba.len();
    let mut p: usize = 0;
    while n - p >= 4
        invariant
            n == old(rgba)@.len(),
            rgba@.len() == n,
            p % 4 == 0,
            p <= n,
            forall|i: int| 0 <= i < p ==> #[trigger] rgba@[i] == night_byte(old(rgba)@, i),
            forall|i: int| p <= i < n ==> #[trigger] rgba@[i] == old(rgba)@[i],
        decreases n - p,
    {
        let r = rgba[p] as i16;
        let g = rgba[p + 1] as i16;
        let b = rgba[p + 2] as i16;
        let max_c = if r >= g && r >= b { r } else if g >= b { g } else { b };
        let min_c = if r <= g && r <= b { r } else if g <= b { g } else { b };
        let saturation = max_c - min_c;
        if saturation < NIGHT_SATURATION_THRESHOLD {
            rgba[p] = (255 - r) as u8;
            rgba[p + 1] = (255 - g) as u8;
            rgba[p + 2] = (255 - b) as u8;
        } else {
            rgba[p] = ((r * 9) / 10) as u8;
            rgba[p + 1] = ((g * 9) / 10) as u8;
            rgba[p + 2] = ((b * 9) / 10) as u8;
        }
        proof {
            assert forall|i: int| 0 <= i < p + 4 implies #[trigger] rgba@[i] == night_byte(old(rgba)@, i) by {
                if i >= p {
                    assert(i - i % 4 == p);
                }
            }
        }
        p = p + 4;
    }
    proof {
        assert forall|i: int| p <= i < n implies #[trigger] rgba@[i] == night_byte(old(rgba)@, i) by {
            assert(i - i % 4 + 4 > n);
        }
    }
}

/// The RGBA buffer for `count` pixels from samples with `n` channels each:
/// three channels gain an opaque alpha (a trailing partial pixel is left
/// white), four are copied as they are, and
/// any other layout is read as one grey value per sample.
pub open spec fn rgba_byte(samples: Seq<u8>, n: usize, count: nat, i: int) -> u8 {
    let px = i / 4;
    let ch = i % 4;
    if n == 3 {
        if ch < 3 && px * 3 + 3 <= samples.len() { samples[px * 3 + ch] } else { 255 }
    } else if n == 4 {
        samples[i]
    } else {
        if ch < 3 && px < samples.len() { samples[px] } else { 255 }
    }
}

/// Expands rendered samples to an RGBA buffer of `width * height` pixels.
pub fn expand_to_rgba(samples: &Vec<u8>, n: usize, width: u32, height: u32) -> (r: Vec<u8>)
    requires
        width as int * height as int * 4 <= usize::MAX,
        n == 4 ==> samples@.len() == width as int * height as int * 4,
    ensures
        r@.len() == width as int * height as int * 4,
        forall|i: int| 0 <= i < r@.len() ==> #[trigger] r@[i] == rgba_byte(samples@, n, (width * height) as nat, i),
{
    let total = (width as usize) * (height as usize) * 4;
    let mut out: Vec<u8> = Vec::new();
    let mut i: usize = 0;
    while i < total
        invariant
            total == width as int * height as int * 4,
            n == 4 ==> samples@.len() == total,
            i <= total,
            out@.len() == i,
            forall|j: int| 0 <= j < i ==> #[trigger] out@[j] == rgba_byte(samples@, n, (width * height) as nat, j),
        decreases total - i,
    {
        let px = i / 4;
        let ch = i % 4;
        let v: u8 = if n == 3 {
            if ch < 3 && px < samples.len() / 3 && px * 3 + 3 <= samples.len() {
                samples[px * 3 + ch]
            } else {
                255
            }
        } else if n == 4 {
            samples[i]
        } else {
            if ch < 3 && px < samples.len() {
                samples[px]
            } else {
                255
            }
        };
        out.push(v);
        i = i + 1;
    }
    out
}

/// The name of a quality in cache file names.
pub open spec fn quality_name(q: RenderQuality) -> Seq<char> {
    match q {
        RenderQuality::Fuzzy => "fuzzy"@,
        RenderQuality::Draft => "draft"@,
        RenderQuality::High => "high"@,
    }
}

/// Night-mode renders of text documents are cached apart from day ones;
/// image documents are never filtered, so they share one entry.
pub open spec fn night_filtered(is_night_mode: bool, is_image_doc: bool) -> bool {
    is_night_mode && !is_image_doc
}

/// The tag a page render is cached under: its quality, prefixed with
/// `night_` when the night filter applies.
pub open spec fn quality_tag_spec(q: RenderQuality, is_night_mode: bool, is_image_doc: bool) -> Seq<char> {
    if night_filtered(is_night_mode, is_image_doc) {
        "night_"@ + quality_name(q)
    } else {
        quality_name(q)
    }
}

/// The tag a page render of quality `quality` is cached under.
pub fn quality_tag(quality: RenderQuality, is_night_mode: bool, is_image_doc: bool) -> (r: String)
    ensures
        r@ == quality_tag_spec(quality, is_night_mode, is_image_doc),
{
    let name = match quality {
        RenderQuality::Fuzzy => "fuzzy",
        RenderQuality::Draft => "draft",
        RenderQuality::High => "high",
    };
    let mut v: Vec<char> = if is_night_mode && !is_image_doc {
        chars_of("night_")
    } else {
        Vec::new()
    };
    extend_chars(&mut v, &chars_of(name));
    assert(v@ =~= quality_tag_spec(quality, is_night_mode, is_image_doc));
    string_of(&v)
}

/// The tag a thumbnail is cached under.
pub fn thumbnail_tag(is_night_mode: bool, is_image_doc: bool) -> (r: &'static str)
    ensures
        r@ == (if night_filtered(is_night_mode, is_image_doc) { "night_thumb"@ } else { "thumb"@ }),
{
    if is_night_mode && !is_image_doc {
        "night_thumb"
    } else {
        "thumb"
    }
}

} // verus!
