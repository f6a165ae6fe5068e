use vstd::prelude::*;

verus! {

/// A zero-filled byte buffer of fixed size `SIZE`.
pub struct Buffer<const SIZE: usize> {
    buffer: Box<[u8; SIZE]>,
}

impl<const SIZE: usize> Buffer<SIZE> {
    pub closed spec fn view(&self) -> Seq<u8> {
        self.buffer@
    }

    /// A buffer of `SIZE` zero bytes.
    pub fn new() -> (r: Self)
        ensures
            r.view() == Seq::new(SIZE as nat, |i: int| 0u8),
    {
        let a: [u8; SIZE] = [0u8; SIZE];
        proof {
            broadcast use vstd::array::axiom_spec_array_fill_for_copy_type, vstd::array::array_len_matches_n;
        }
        let r = Buffer { buffer: Box::new(a) };
        proof {
            broadcast use vstd::array::array_len_matches_n;
            assert(r.view() =~= Seq::new(SIZE as nat, |i: int| 0u8));
        }
        r
    }

    /// The bytes, for writing; their number cannot change.
    pub fn get_mut(&mut self) -> (r: &mut Box<[u8; SIZE]>)
        ensures
            r@ == old(self).view(),
            final(self).view() == final(r)@,
    {
        &mut self.buffer
    }

    /// The bytes.
    pub fn get(&self) -> (r: &Box<[u8; SIZE]>)
        ensures
            r@ == self.view(),
    {
        &self.buffer
    }

    /// Number of bytes: always `SIZE`.
    pub fn len(&self) -> (r: usize)
        ensures
            r == SIZE,
            r == self.view().len(),
    {
        proof {
            broadcast use vstd::array::array_len_matches_n;
        }
        SIZE
    }
}

impl<const SIZE: usize> Default for Buffer<SIZE> {
    fn default() -> (r: Self)
        ensures
            r.view() == Seq::new(SIZE as nat, |i: int| 0u8),
    {
        Self::new()
    }
}

} // verus!
