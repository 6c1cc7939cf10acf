//! Byte-per-channel pixels and the flat byte buffer an image writer takes.

use vstd::prelude::*;

verus! {

#[derive(Clone, Copy, PartialEq, Eq, Structural, Default, Debug)]
pub struct Rgb(pub u8, pub u8, pub u8);

impl Rgb {
    pub fn new(r: u8, g: u8, b: u8) -> (c: Rgb)
        ensures
            c == Rgb(r, g, b),
    {
        Rgb(r, g, b)
    }

    pub fn r(&self) -> (v: u8)
        ensures
            v == self.0,
    {
        self.0
    }

    pub fn g(&self) -> (v: u8)
        ensures
            v == self.1,
    {
        self.1
    }

    pub fn b(&self) -> (v: u8)
        ensures
            v == self.2,
    {
        self.2
    }
}

/// Flatten a pixel buffer into packed `r g b` bytes, in order.
pub fn rgb_vec_to_u8_slice(buffer: &Vec<Rgb>) -> (r: Vec<u8>)
    requires
        buffer@.len() * 3 <= usize::MAX,
    ensures
        r@.len() == 3 * buffer@.len(),
        forall|i: int|
            0 <= i < buffer@.len() ==> {
                &&& r@[3 * i] == (#[trigger] buffer@[i]).0
                &&& r@[3 * i + 1] == buffer@[i].1
                &&& r@[3 * i + 2] == buffer@[i].2
            },
{
    let n = buffer.len();
    let mut res: Vec<u8> = Vec::new();
    let mut i: usize = 0;
    while i < n
        invariant
            0 <= i <= n,
            n == buffer@.len(),
            res@.len() == 3 * i,
            forall|k: int|
                0 <= k < i ==> {
                    &&& res@[3 * k] == (#[trigger] buffer@[k]).0
                    &&& res@[3 * k + 1] == buffer@[k].1
                    &&& res@[3 * k + 2] == buffer@[k].2
                },
        decreases n - i,
    {
        let p = buffer[i];
        res.push(p.0);
        res.push(p.1);
        res.push(p.2);
        i = i + 1;
    }
    res
}

} // verus!
