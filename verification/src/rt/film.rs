use crate::lm::float::{Float, ONE_BITS};
use crate::lm::math::{Bound, Vector};
use crate::rt::ppm::{header, header_spec};
use vstd::prelude::*;

verus! {

/// A grid of pixels, `width` wide and `height` high, stored row after row.
/// Each pixel is a colour of three channels.
#[derive(Debug)]
pub struct Film {
    width: usize,
    height: usize,
    data: Vec<Vector<3>>,
}

impl Film {
    #[verifier::type_invariant]
    spec fn well_formed(&self) -> bool {
        self.data.len() == self.width * self.height
    }

    /// The width and the height.
    pub closed spec fn size_spec(&self) -> (usize, usize) {
        (self.width, self.height)
    }

    /// The pixels, row after row.
    pub closed spec fn pixels(&self) -> Seq<Vector<3>> {
        self.data@
    }

    /// The place of the pixel in column `x` of row `y` among the pixels.
    pub open spec fn offset(&self, x: usize, y: usize) -> int {
        x + y * self.size().0
    }

    /// The byte of channel `c` of pixel `i` in the body of an image.
    pub open spec fn channel(body: Seq<u8>, i: int, c: int) -> u8 {
        body[3 * i + c]
    }

    /// Whether `body` holds three bytes for each of `pixels`, in order, each
    /// byte being what `sample` made of a channel held to the range from 0
    /// to 1.
    pub open spec fn is_body<F: Fn(Float) -> u8>(
        pixels: Seq<Vector<3>>,
        sample: F,
        body: Seq<u8>,
    ) -> bool {
        &&& body.len() == 3 * pixels.len()
        &&& forall|i: int, c: int|
            0 <= i < pixels.len() && 0 <= c < 3 ==> call_ensures(
                sample,
                (pixels[i].v[c].clamp_spec(Float { bits: 0 }, Float { bits: ONE_BITS }),),
                #[trigger] Self::channel(body, i, c),
            )
    }

    /// A film of the given size whose channels are all `+0.0`. The number of
    /// pixels must fit the machine.
    pub fn new(width: usize, height: usize) -> (r: Film)
        requires
            width * height <= usize::MAX,
        ensures
            r.size() == (width, height),
            r.pixels().len() == width * height,
            forall|i: int, c: int|
                0 <= i < width * height && 0 <= c < 3 ==> (#[trigger] r.pixels()[i].v[c]).bits == 0,
    {
        let count = width * height;
        let black: Vector<3> = Vector::zero();
        let mut data: Vec<Vector<3>> = Vec::new();
        let mut i: usize = 0;
        while i < count
            invariant
                i <= count,
                data.len() == i,
                forall|k: int| 0 <= k < i ==> data[k] == black,
            decreases count - i,
        {
            data.push(black);
            i += 1;
        }
        Film { width, height, data }
    }

    /// Stores `value` in column `x` of row `y`, which must be a place among
    /// the pixels.
    pub fn write(&mut self, x: usize, y: usize, value: Vector<3>)
        requires
            old(self).offset(x, y) < old(self).pixels().len(),
        ensures
            final(self).size() == old(self).size(),
            final(self).pixels() == old(self).pixels().update(old(self).offset(x, y), value),
    {
        proof {
            use_type_invariant(&*self);
        }
        let index = x + y * self.width;
        self.data[index] = value;
    }

    /// The pixel in column `x` of row `y`, which must be a place among the
    /// pixels.
    pub fn read(&self, x: usize, y: usize) -> (r: Vector<3>)
        requires
            self.offset(x, y) < self.pixels().len(),
        ensures
            r == self.pixels()[self.offset(x, y)],
    {
        proof {
            use_type_invariant(self);
        }
        self.data[x + y * self.width]
    }

    /// The film as a binary colour image: the header, then three bytes for
    /// each pixel, row after row. `sample` turns a channel, which it gets
    /// held to the range from 0 to 1, into its byte.
    pub fn encode<F: Fn(Float) -> u8>(&self, sample: F) -> (r: Vec<u8>)
        requires
            forall|x: Float| call_requires(sample, (x,)),
        ensures
            exists|body: Seq<u8>|
                r@ == header_spec(self.size().0 as nat, self.size().1 as nat) + body
                    && Self::is_body(self.pixels(), sample, body),
    {
        let mut out = header(self.width, self.height);
        let ghost head = out@;
        let unit = (Float::zero(), Float::one());
        let range = Bound::<3>::new([unit, unit, unit]);
        assert(range.b[0] == unit && range.b[1] == unit && range.b[2] == unit);
        let ghost mut body: Seq<u8> = Seq::empty();
        let mut i: usize = 0;
        while i < self.data.len()
            invariant
                i <= self.data.len(),
                range.is_ordered(),
                range.b[0] == unit && range.b[1] == unit && range.b[2] == unit,
                unit == (Float { bits: 0 }, Float { bits: ONE_BITS }),
                forall|x: Float| call_requires(sample, (x,)),
                head == header_spec(self.width as nat, self.height as nat),
                out@ == head + body,
                Self::is_body(self.data@.take(i as int), sample, body),
            decreases self.data.len() - i,
        {
            let held = range.clamp(&self.data[i]);
            let red = sample(held.v[0]);
            let green = sample(held.v[1]);
            let blue = sample(held.v[2]);
            out.push(red);
            out.push(green);
            out.push(blue);
            proof {
                let longer = body.push(red).push(green).push(blue);
                let pixels = self.data@.take(i + 1);
                assert(held.v[0] == self.data@[i as int].v[0].clamp_spec(
                    range.lower(0),
                    range.upper(0),
                ));
                assert(held.v[1] == self.data@[i as int].v[1].clamp_spec(
                    range.lower(1),
                    range.upper(1),
                ));
                assert(held.v[2] == self.data@[i as int].v[2].clamp_spec(
                    range.lower(2),
                    range.upper(2),
                ));
                assert forall|k: int, c: int| 0 <= k < pixels.len() && 0 <= c < 3 implies call_ensures(
                    sample,
                    (pixels[k].v[c].clamp_spec(Float { bits: 0 }, Float { bits: ONE_BITS }),),
                    #[trigger] Self::channel(longer, k, c),
                ) by {
                    if k < i {
                        assert(pixels[k] == self.data@.take(i as int)[k]);
                        assert(Self::channel(longer, k, c) == Self::channel(body, k, c));
                    } else {
                        assert(pixels[k] == self.data@[i as int]);
                        assert(longer[3 * i + 0] == red);
                        assert(longer[3 * i + 1] == green);
                        assert(longer[3 * i + 2] == blue);
                    }
                }
                assert(out@ =~= head + longer);
                body = longer;
            }
            i += 1;
        }
        assert(self.data@.take(self.data.len() as int) =~= self.data@);
        assert(out@ == header_spec(self.size().0 as nat, self.size().1 as nat) + body);
        assert(Self::is_body(self.pixels(), sample, body));
        out
    }

    /// The width and the height, whose product is the number of pixels.
    #[verifier::when_used_as_spec(size_spec)]
    pub fn size(&self) -> (r: (usize, usize))
        ensures
            r == self.size(),
            self.pixels().len() == r.0 * r.1,
    {
        proof {
            use_type_invariant(self);
        }
        (self.width, self.height)
    }
}

impl Clone for Film {
    /// A film of the same size with the same pixels.
    fn clone(&self) -> (r: Film)
        ensures
            r.size() == self.size(),
            r.pixels() == self.pixels(),
    {
        proof {
            use_type_invariant(self);
        }
        let mut data: Vec<Vector<3>> = Vec::new();
        let mut i: usize = 0;
        while i < self.data.len()
            invariant
                i <= self.data.len(),
                data@ == self.data@.take(i as int),
            decreases self.data.len() - i,
        {
            data.push(self.data[i]);
            i += 1;
        }
        assert(self.data@.take(self.data.len() as int) =~= self.data@);
        Film { width: self.width, height: self.height, data }
    }
}

} // verus!
