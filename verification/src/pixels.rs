//! Counting the magical pixels of a picture.

use vstd::prelude::*;

verus! {

/// The colour of one pixel.
#[derive(Clone, Copy, Debug, PartialEq, Eq, Structural)]
pub struct Pixel {
    pub red: u8,
    pub green: u8,
    pub blue: u8,
}

/// A pixel is magical where its red is more than its blue and green together.
pub open spec fn is_magical(pixel: Pixel) -> bool {
    pixel.red > pixel.blue + pixel.green
}

/// The number of magical pixels among `pixels`.
pub fn magical_pixels_count(pixels: &Vec<Pixel>) -> (count: usize)
    ensures
        count == pixels@.filter(|pixel: Pixel| is_magical(pixel)).len(),
{
    let mut count: usize = 0;
    let mut i: usize = 0;
    assert(pixels@.take(0) =~= Seq::<Pixel>::empty());
    while i < pixels.len()
        invariant
            i <= pixels@.len(),
            count <= i,
            count == pixels@.take(i as int).filter(|pixel: Pixel| is_magical(pixel)).len(),
        decreases pixels@.len() - i,
    {
        let pixel = pixels[i];
        proof {
            reveal(Seq::filter);
            assert(pixels@.take(i + 1).drop_last() =~= pixels@.take(i as int));
        }
        if pixel.red > pixel.blue.saturating_add(pixel.green) {
            count += 1;
        }
        i += 1;
    }
    assert(pixels@.take(pixels@.len() as int) =~= pixels@);
    count
}

} // verus!
