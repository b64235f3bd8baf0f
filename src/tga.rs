use vstd::prelude::*;

verus! {

/// The 18-byte header of an uncompressed 8-bit grayscale TGA file of the given
/// size, whose rows run from the top down.
pub open spec fn grayscale_header(width: u16, height: u16) -> Seq<u8> {
    seq![
        0u8, 0u8, 3u8, 0u8, 0u8, 0u8, 0u8, 0u8, 0u8, 0u8, 0u8, 0u8,
        (width % 256) as u8, (width / 256) as u8,
        (height % 256) as u8, (height / 256) as u8,
        8u8, 32u8,
    ]
}

/// The bytes of an uncompressed 8-bit grayscale TGA file: the header, then
/// `image`, one byte per pixel.
pub fn tga_grayscale(image: &[u8], width: u16, height: u16) -> (r: Vec<u8>)
    ensures
        r@ == grayscale_header(width, height) + image@,
{
    let mut r: Vec<u8> = Vec::new();
    r.push(0);
    r.push(0);
    r.push(3);
    let mut k: usize = 0;
    while k < 9
        invariant
            k <= 9,
            r@ == seq![0u8, 0u8, 3u8] + Seq::new(k as nat, |i: int| 0u8),
        decreases 9 - k,
    {
        r.push(0);
        k = k + 1;
        assert(r@ =~= seq![0u8, 0u8, 3u8] + Seq::new(k as nat, |i: int| 0u8));
    }
    r.push((width % 256) as u8);
    r.push((width / 256) as u8);
    r.push((height % 256) as u8);
    r.push((height / 256) as u8);
    r.push(8);
    r.push(32);
    assert(r@ =~= grayscale_header(width, height));
    let mut i: usize = 0;
    while i < image.len()
        invariant
            i <= image@.len(),
            r@ == grayscale_header(width, height) + image@.subrange(0, i as int),
        decreases image@.len() - i,
    {
        r.push(image[i]);
        i = i + 1;
        assert(r@ =~= grayscale_header(width, height) + image@.subrange(0, i as int));
    }
    assert(image@.subrange(0, i as int) =~= image@);
    r
}

/// A grayscale image, one byte per pixel, row by row from the top.
pub struct Image {
    pub pixels: Vec<u8>,
    pub width: u32,
    pub height: u32,
}

impl Image {
    /// The image holds one pixel per position.
    pub open spec fn wf(&self) -> bool {
        self.pixels@.len() == self.width * self.height
    }

    /// A black image of the given size.
    pub fn new(width: u32, height: u32) -> (r: Image)
        requires
            width * height <= u32::MAX,
        ensures
            r.width == width,
            r.height == height,
            r.pixels@ == Seq::new((width * height) as nat, |i: int| 0u8),
            r.wf(),
    {
        let n = width * height;
        let mut pixels: Vec<u8> = Vec::new();
        let mut i: u32 = 0;
        while i < n
            invariant
                i <= n,
                pixels@ == Seq::new(i as nat, |k: int| 0u8),
            decreases n - i,
        {
            pixels.push(0);
            i = i + 1;
            assert(pixels@ =~= Seq::new(i as nat, |k: int| 0u8));
        }
        Image { pixels: pixels, width: width, height: height }
    }

    /// The bytes of the image as an uncompressed grayscale TGA file, for the
    /// caller to write out; `None` where a side is over 65535 pixels, more
    /// than the format can state, or where the pixels do not fill the image.
    pub fn write_file(&self) -> (r: Option<Vec<u8>>)
        ensures
            r is Some <==> self.wf() && self.width <= 65535 && self.height <= 65535,
            r matches Some(v) ==> v@ == grayscale_header(self.width as u16, self.height as u16)
                + self.pixels@,
    {
        if self.width > 65535 || self.height > 65535 {
            return None;
        }
        let (w, h) = (self.width as u64, self.height as u64);
        assert(w * h <= 65535 * 65535) by (nonlinear_arith)
            requires
                w <= 65535,
                h <= 65535,
        ;
        if self.pixels.len() as u64 != w * h {
            return None;
        }
        Some(tga_grayscale(self.pixels.as_slice(), self.width as u16, self.height as u16))
    }
}

} // verus!
