//! The palette resolver: from pixels to an ordered colour table, and from a
//! colour to its index in such a table.

use crate::error::BitDataError;
use crate::rgba::Rgba;
use vstd::prelude::*;

verus! {

/// The colours that occur in `pixels`, each once, in the order in which they
/// first occur.
pub open spec fn distinct_colors(pixels: Seq<Rgba>) -> Seq<Rgba>
    decreases pixels.len(),
{
    if pixels.len() == 0 {
        Seq::empty()
    } else {
        let earlier = distinct_colors(pixels.drop_last());
        if earlier.contains(pixels.last()) {
            earlier
        } else {
            earlier.push(pixels.last())
        }
    }
}

/// The palette of an image: its distinct colours in first-occurrence order,
/// followed by one fallback entry, black.
pub open spec fn palette_of(pixels: Seq<Rgba>) -> Seq<Rgba> {
    distinct_colors(pixels).push(Rgba::spec_black())
}

/// The first position at which `color` stands in `palette`, or the length of
/// `palette` if it stands nowhere.
pub open spec fn position_of(palette: Seq<Rgba>, color: Rgba) -> int
    decreases palette.len(),
{
    if palette.len() == 0 {
        0
    } else if palette[0] == color {
        0
    } else {
        1 + position_of(palette.drop_first(), color)
    }
}

/// The palette index of every pixel, in the order of the pixels.
pub open spec fn color_indices(pixels: Seq<Rgba>, palette: Seq<Rgba>) -> Seq<u8> {
    Seq::new(pixels.len(), |i: int| position_of(palette, pixels[i]) as u8)
}

/// `position_of` is the least index that holds the colour: the entry there is
/// the colour, no earlier entry is, and the result is the length exactly when
/// the colour is absent.
pub proof fn lemma_position_of(palette: Seq<Rgba>, color: Rgba)
    ensures
        0 <= position_of(palette, color) <= palette.len(),
        position_of(palette, color) < palette.len() <==> palette.contains(color),
        position_of(palette, color) < palette.len() ==> palette[position_of(palette, color)]
            == color,
        forall|j: int| 0 <= j < position_of(palette, color) ==> palette[j] != color,
    decreases palette.len(),
{
    if palette.len() == 0 {
    } else if palette[0] == color {
    } else {
        let rest = palette.drop_first();
        lemma_position_of(rest, color);
        let at = position_of(rest, color);
        assert forall|j: int| 0 <= j < at + 1 implies palette[j] != color by {
            if j > 0 {
                assert(rest[j - 1] == palette[j]);
            }
        }
        if at < rest.len() {
            assert(palette[at + 1] == rest[at]);
        }
        if palette.contains(color) {
            let k = choose|k: int| 0 <= k < palette.len() && palette[k] == color;
            assert(rest[k - 1] == color);
        }
    }
}

/// An index that holds the colour, with no earlier index that does, is the
/// colour's position.
pub proof fn lemma_position_of_is(palette: Seq<Rgba>, color: Rgba, at: int)
    requires
        0 <= at <= palette.len(),
        at < palette.len() ==> palette[at] == color,
        forall|j: int| 0 <= j < at ==> palette[j] != color,
    ensures
        position_of(palette, color) == at,
{
    lemma_position_of(palette, color);
}

/// Looking a colour up in a longer palette gives the same position, as long as
/// the shorter one already holds it.
pub proof fn lemma_position_of_push(palette: Seq<Rgba>, last: Rgba, color: Rgba)
    ensures
        palette.contains(color) ==> position_of(palette.push(last), color) == position_of(
            palette,
            color,
        ),
        !palette.contains(color) && last == color ==> position_of(palette.push(last), color)
            == palette.len(),
        !palette.contains(color) && last != color ==> position_of(palette.push(last), color)
            == palette.len() + 1,
{
    lemma_position_of(palette, color);
    let longer = palette.push(last);
    let at = position_of(palette, color);
    if palette.contains(color) {
        assert(longer[at] == color);
        assert forall|j: int| 0 <= j < at implies longer[j] != color by {
            assert(longer[j] == palette[j]);
        }
        lemma_position_of_is(longer, color, at);
    } else {
        assert forall|j: int| 0 <= j < palette.len() implies longer[j] != color by {
            assert(longer[j] == palette[j]);
        }
        if last == color {
            lemma_position_of_is(longer, color, palette.len() as int);
        } else {
            lemma_position_of_is(longer, color, (palette.len() + 1) as int);
        }
    }
}

/// The distinct colours of an image are exactly its colours, none of them
/// twice, and no more of them than there are pixels.
pub proof fn lemma_distinct_colors(pixels: Seq<Rgba>)
    ensures
        distinct_colors(pixels).len() <= pixels.len(),
        forall|c: Rgba| distinct_colors(pixels).contains(c) <==> pixels.contains(c),
        forall|i: int, j: int|
            0 <= i < j < distinct_colors(pixels).len() ==> distinct_colors(pixels)[i]
                != distinct_colors(pixels)[j],
    decreases pixels.len(),
{
    let found = distinct_colors(pixels);
    if pixels.len() == 0 {
    } else {
        let front = pixels.drop_last();
        let earlier = distinct_colors(front);
        lemma_distinct_colors(front);
        assert(pixels =~= front.push(pixels.last()));
        assert forall|c: Rgba| found.contains(c) implies pixels.contains(c) by {
            let k = choose|k: int| 0 <= k < found.len() && found[k] == c;
            if k < earlier.len() {
                assert(earlier[k] == c);
                assert(earlier.contains(c));
                assert(front.contains(c));
                let m = choose|m: int| 0 <= m < front.len() && front[m] == c;
                assert(pixels[m] == c);
            } else {
                assert(pixels[pixels.len() - 1] == c);
            }
        }
        assert forall|c: Rgba| pixels.contains(c) implies found.contains(c) by {
            let m = choose|m: int| 0 <= m < pixels.len() && pixels[m] == c;
            if m < front.len() {
                assert(front[m] == c);
                assert(front.contains(c));
                assert(earlier.contains(c));
                let k = choose|k: int| 0 <= k < earlier.len() && earlier[k] == c;
                assert(found[k] == c);
            } else if earlier.contains(c) {
            } else {
                assert(found[earlier.len() as int] == c);
            }
        }
    }
}

/// The distinct colours stand in the order in which the image first shows
/// them.
pub proof fn lemma_distinct_colors_order(pixels: Seq<Rgba>, i: int, j: int)
    requires
        0 <= i < j < distinct_colors(pixels).len(),
    ensures
        position_of(pixels, distinct_colors(pixels)[i]) < position_of(
            pixels,
            distinct_colors(pixels)[j],
        ) < pixels.len(),
    decreases pixels.len(),
{
    let found = distinct_colors(pixels);
    let front = pixels.drop_last();
    let earlier = distinct_colors(front);
    let last = pixels.last();
    lemma_distinct_colors(front);
    lemma_distinct_colors(pixels);
    assert(pixels =~= front.push(last));
    assert(earlier.contains(found[i])) by {
        assert(earlier[i] == found[i]);
    }
    lemma_position_of_push(front, last, found[i]);
    lemma_position_of(front, found[i]);
    lemma_position_of_push(front, last, found[j]);
    if j < earlier.len() {
        assert(earlier[j] == found[j]);
        assert(earlier.contains(found[j]));
        lemma_distinct_colors_order(front, i, j);
    } else {
        assert(found[j] == last);
    }
}

/// A palette built from an image ends in exactly one fallback entry, black,
/// after the image's distinct colours. Looking up a colour of the image finds
/// it among the distinct colours. Looking up black finds an entry even where
/// the image has no black pixel: the fallback. No other colour has an entry.
pub proof fn lemma_palette_fallback(pixels: Seq<Rgba>, color: Rgba)
    ensures
        palette_of(pixels).len() == distinct_colors(pixels).len() + 1,
        palette_of(pixels).drop_last() == distinct_colors(pixels),
        palette_of(pixels).last() == Rgba::spec_black(),
        palette_of(pixels).contains(color) <==> pixels.contains(color) || color
            == Rgba::spec_black(),
        pixels.contains(color) ==> position_of(palette_of(pixels), color) < distinct_colors(
            pixels,
        ).len(),
        !pixels.contains(color) && color == Rgba::spec_black() ==> position_of(
            palette_of(pixels),
            color,
        ) == distinct_colors(pixels).len(),
        palette_of(pixels).contains(color) ==> palette_of(pixels)[position_of(
            palette_of(pixels),
            color,
        )] == color,
{
    let found = distinct_colors(pixels);
    let palette = palette_of(pixels);
    lemma_distinct_colors(pixels);
    lemma_position_of(found, color);
    lemma_position_of(palette, color);
    lemma_position_of_push(found, Rgba::spec_black(), color);
    assert(palette.drop_last() =~= found);
}

/// In the palette of an image, each pixel of the image has a position among
/// the distinct colours, and the entry there is the pixel's colour.
pub proof fn lemma_pixel_in_palette(pixels: Seq<Rgba>, i: int)
    requires
        0 <= i < pixels.len(),
    ensures
        0 <= position_of(palette_of(pixels), pixels[i]) < distinct_colors(pixels).len(),
        palette_of(pixels).contains(pixels[i]),
        palette_of(pixels)[position_of(palette_of(pixels), pixels[i])] == pixels[i],
{
    assert(pixels.contains(pixels[i]));
    lemma_palette_fallback(pixels, pixels[i]);
    lemma_position_of(palette_of(pixels), pixels[i]);
}

/// The first position of `color` in `palette`, or the length of `palette` if
/// it holds no such entry.
fn first_position(palette: &[Rgba], color: Rgba) -> (at: usize)
    ensures
        at == position_of(palette@, color),
{
    let mut at: usize = 0;
    while at < palette.len() && palette[at] != color
        invariant
            at <= palette.len(),
            forall|j: int| 0 <= j < at ==> palette@[j] != color,
        decreases palette.len() - at,
    {
        at += 1;
    }
    proof {
        lemma_position_of_is(palette@, color, at as int);
    }
    at
}

/// The index of `color` in `palette`: the first position that holds it.
/// Fails with `LookupError` exactly when the palette does not hold the colour.
pub fn color_index(palette: &[Rgba], color: Rgba) -> (found: Result<usize, BitDataError>)
    ensures
        match found {
            Ok(at) => palette@.contains(color) && at == position_of(palette@, color),
            Err(e) => !palette@.contains(color) && e == BitDataError::LookupError,
        },
{
    let at = first_position(palette, color);
    proof {
        lemma_position_of(palette@, color);
    }
    if at < palette.len() {
        Ok(at)
    } else {
        Err(BitDataError::LookupError)
    }
}

/// The colours that occur in `pixels`, each once, in first-occurrence order.
pub fn unique_colors(pixels: &[Rgba]) -> (found: Vec<Rgba>)
    ensures
        found@ == distinct_colors(pixels@),
{
    let mut found: Vec<Rgba> = Vec::new();
    let mut i: usize = 0;
    while i < pixels.len()
        invariant
            i <= pixels.len(),
            found@ == distinct_colors(pixels@.take(i as int)),
        decreases pixels.len() - i,
    {
        let color = pixels[i];
        let at = first_position(found.as_slice(), color);
        proof {
            lemma_position_of(found@, color);
            let next = pixels@.take(i + 1);
            assert(next.drop_last() =~= pixels@.take(i as int));
            assert(next.last() == color);
        }
        if at == found.len() {
            found.push(color);
        }
        i += 1;
    }
    proof {
        assert(pixels@.take(pixels@.len() as int) =~= pixels@);
    }
    found
}

/// The palette of an image: its distinct colours in first-occurrence order,
/// followed by the fallback entry, black.
pub fn build_palette(pixels: &[Rgba]) -> (palette: Vec<Rgba>)
    ensures
        palette@ == palette_of(pixels@),
{
    let mut palette = unique_colors(pixels);
    palette.push(Rgba::black());
    palette
}

} // verus!
