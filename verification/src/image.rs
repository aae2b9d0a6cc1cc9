//! Straight-alpha RGBA8 images: the base asset and pasted images.
use vstd::prelude::*;

verus! {

/// What an image holds: its size and its RGBA bytes, row by row.
pub struct ImageView {
    pub width: u32,
    pub height: u32,
    pub data: Seq<u8>,
}

/// The number of bytes of an RGBA8 image of the given size.
pub open spec fn rgba_len(width: u32, height: u32) -> nat {
    4 * width as nat * height as nat
}

/// A straight (non-premultiplied) RGBA8 image.
pub struct RgbaImage {
    width: u32,
    height: u32,
    data: Vec<u8>,
}

impl View for RgbaImage {
    type V = ImageView;

    closed spec fn view(&self) -> ImageView {
        ImageView { width: self.width, height: self.height, data: self.data@ }
    }
}

impl RgbaImage {
    #[verifier::type_invariant]
    closed spec fn wf(self) -> bool {
        self.data@.len() == rgba_len(self.width, self.height)
    }

    /// An image of the given size with every pixel set to `pixel`.
    pub fn from_pixel(width: u32, height: u32, pixel: [u8; 4]) -> (image: Self)
        requires
            rgba_len(width, height) <= usize::MAX,
        ensures
            image@.width == width,
            image@.height == height,
            image@.data.len() == rgba_len(width, height),
            forall|i: int| 0 <= i < rgba_len(width, height) ==> #[trigger] image@.data[i] == pixel@[i % 4],
    {
        let n: usize = if height == 0 {
            0
        } else {
            assert(4 * width <= 4 * width * height) by (nonlinear_arith)
                requires
                    height >= 1,
            ;
            4 * (width as usize) * (height as usize)
        };
        assert(n == rgba_len(width, height)) by (nonlinear_arith)
            requires
                height == 0 ==> n == 0,
                height != 0 ==> n == 4 * width * height,
        ;
        let mut data: Vec<u8> = Vec::with_capacity(n);
        let mut i: usize = 0;
        while i < n
            invariant
                n == rgba_len(width, height),
                i <= n,
                data@.len() == i,
                forall|j: int| 0 <= j < i ==> #[trigger] data@[j] == pixel@[j % 4],
            decreases n - i,
        {
            data.push(pixel[i % 4]);
            assert(data@[i as int] == pixel@[i as int % 4]);
            i += 1;
        }
        RgbaImage { width, height, data }
    }

    /// The image over the first `4 * width * height` bytes of `buf`, if
    /// `buf` holds that many. Larger buffers are accepted; their excess
    /// bytes are not pixels of the image.
    pub fn from_raw(width: u32, height: u32, buf: Vec<u8>) -> (image: Option<Self>)
        ensures
            image is Some <==> 4 * width <= usize::MAX && rgba_len(width, height) <= buf@.len(),
            image matches Some(image) ==> {
                &&& image@.width == width
                &&& image@.height == height
                &&& image@.data == buf@.subrange(0, rgba_len(width, height) as int)
            },
    {
        let row: Option<usize> = 4usize.checked_mul(width as usize);
        match row {
            None => None,
            Some(r) => {
                let len: Option<usize> = r.checked_mul(height as usize);
                assert(r * height == rgba_len(width, height)) by (nonlinear_arith)
                    requires
                        r == 4 * width,
                ;
                match len {
                    Some(n) => {
                        if n <= buf.len() {
                            let mut data = buf;
                            data.truncate(n);
                            Some(RgbaImage { width, height, data })
                        } else {
                            None
                        }
                    },
                    None => {
                        let ghost buf_len: usize = buf.len();
                        assert(buf@.len() == buf_len);
                        assert(rgba_len(width, height) > buf@.len());
                        None
                    },
                }
            },
        }
    }

    pub fn width(&self) -> (w: u32)
        ensures
            w == self@.width,
    {
        self.width
    }

    pub fn height(&self) -> (h: u32)
        ensures
            h == self@.height,
    {
        self.height
    }

    /// The RGBA bytes, row by row.
    pub fn data(&self) -> (d: &Vec<u8>)
        ensures
            d@ == self@.data,
            d@.len() == rgba_len(self@.width, self@.height),
    {
        proof {
            use_type_invariant(self);
        }
        &self.data
    }
}

} // verus!
