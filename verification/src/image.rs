//! Preparing decoded images for resizing: the pixel layout that goes with a
//! color type, and 16-bit samples laid out as little-endian bytes.
use vstd::prelude::*;

verus! {

/// The color types of decoded images.
#[derive(Clone, Copy, Debug, PartialEq, Eq, Structural)]
pub enum ColorKind {
    L8,
    L16,
    La8,
    La16,
    Rgb8,
    Rgb16,
    Rgba8,
    Rgba16,
    Other,
}

/// The pixel layouts the resizer works on.
#[derive(Clone, Copy, Debug, PartialEq, Eq, Structural)]
pub enum PixelKind {
    U8,
    U16,
    U8x2,
    U16x2,
    U8x3,
    U16x3,
    U8x4,
    U16x4,
}

/// The pixel layout for a color type: the same channels and sample width;
/// `None` for color types the resizer does not take.
pub open spec fn pixel_kind_of(c: ColorKind) -> Option<PixelKind> {
    match c {
        ColorKind::L8 => Some(PixelKind::U8),
        ColorKind::L16 => Some(PixelKind::U16),
        ColorKind::La8 => Some(PixelKind::U8x2),
        ColorKind::La16 => Some(PixelKind::U16x2),
        ColorKind::Rgb8 => Some(PixelKind::U8x3),
        ColorKind::Rgb16 => Some(PixelKind::U16x3),
        ColorKind::Rgba8 => Some(PixelKind::U8x4),
        ColorKind::Rgba16 => Some(PixelKind::U16x4),
        ColorKind::Other => None,
    }
}

/// The pixel layout for a color type.
pub fn pixel_kind(c: ColorKind) -> (res: Option<PixelKind>)
    ensures
        res == pixel_kind_of(c),
{
    match c {
        ColorKind::L8 => Some(PixelKind::U8),
        ColorKind::L16 => Some(PixelKind::U16),
        ColorKind::La8 => Some(PixelKind::U8x2),
        ColorKind::La16 => Some(PixelKind::U16x2),
        ColorKind::Rgb8 => Some(PixelKind::U8x3),
        ColorKind::Rgb16 => Some(PixelKind::U16x3),
        ColorKind::Rgba8 => Some(PixelKind::U8x4),
        ColorKind::Rgba16 => Some(PixelKind::U16x4),
        ColorKind::Other => None,
    }
}

/// 16-bit samples as bytes, each sample low byte first.
pub open spec fn le_bytes(samples: Seq<u16>) -> Seq<u8>
    decreases samples.len(),
{
    if samples.len() == 0 {
        Seq::empty()
    } else {
        le_bytes(samples.drop_last()) + seq![
            (samples.last() % 256) as u8,
            (samples.last() / 256) as u8,
        ]
    }
}

/// Lays out 16-bit samples as bytes, each sample low byte first.
pub fn samples_to_le_bytes(samples: &Vec<u16>) -> (res: Vec<u8>)
    ensures
        res@ == le_bytes(samples@),
        res@.len() == 2 * samples@.len(),
{
    let mut res: Vec<u8> = Vec::new();
    let mut i: usize = 0;
    assert(samples@.take(0) =~= Seq::<u16>::empty());
    while i < samples.len()
        invariant
            i <= samples@.len(),
            res@ == le_bytes(samples@.take(i as int)),
            res@.len() == 2 * i,
        decreases samples@.len() - i,
    {
        let x = samples[i];
        res.push((x % 256) as u8);
        res.push((x / 256) as u8);
        assert(samples@.take(i + 1).drop_last() =~= samples@.take(i as int));
        assert(res@ =~= le_bytes(samples@.take(i as int)) + seq![
            (x % 256) as u8,
            (x / 256) as u8,
        ]);
        i += 1;
    }
    assert(samples@.take(samples@.len() as int) =~= samples@);
    res
}

} // verus!
