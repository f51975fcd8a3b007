use vstd::prelude::*;

verus! {

/// An input that may carry a generalized form: one slot per position,
/// `Some(b)` for a kept byte and `None` for a gap.
pub struct GeneralizedInput {
    pub bytes: Vec<u8>,
    pub generalized: Option<Vec<Option<u8>>>,
}

impl GeneralizedInput {
    /// A fresh input over `bytes`, with no generalized form yet.
    pub fn new(bytes: Vec<u8>) -> (r: Self)
        ensures
            r.bytes@ == bytes@,
            r.generalized is None,
    {
        GeneralizedInput { bytes, generalized: None }
    }

    /// The raw bytes of the input.
    pub fn bytes(&self) -> (r: &Vec<u8>)
        ensures
            r@ == self.bytes@,
    {
        &self.bytes
    }

    /// The generalized form, if one has been installed.
    pub fn generalized(&self) -> (r: Option<&Vec<Option<u8>>>)
        ensures
            r is Some <==> self.generalized is Some,
            r matches Some(g) ==> (self.generalized matches Some(h) && g@ == h@),
    {
        match &self.generalized {
            Some(g) => Some(g),
            None => None,
        }
    }

    /// Installs the given slots as this input's generalized form.
    pub fn generalized_from_options(&mut self, options: &Vec<Option<u8>>)
        ensures
            final(self).bytes@ == old(self).bytes@,
            final(self).generalized matches Some(g) && g@ == options@,
    {
        self.generalized = Some(clone_vec(options));
    }
}

impl Clone for GeneralizedInput {
    fn clone(&self) -> (r: Self)
        ensures
            r.bytes@ == self.bytes@,
            r.generalized is Some <==> self.generalized is Some,
            r.generalized matches Some(g) ==> (self.generalized matches Some(h) && g@ == h@),
    {
        let generalized = match &self.generalized {
            Some(g) => Some(clone_vec(g)),
            None => None,
        };
        GeneralizedInput { bytes: clone_vec(&self.bytes), generalized }
    }
}

/// A fresh element-wise copy of a vector of plain values.
pub fn clone_vec<T: Copy>(v: &Vec<T>) -> (r: Vec<T>)
    ensures
        r@ == v@,
{
    let mut r: Vec<T> = Vec::new();
    let mut i: usize = 0;
    while i < v.len()
        invariant
            i <= v@.len(),
            r@ == v@.subrange(0, i as int),
        decreases v@.len() - i,
    {
        r.push(v[i]);
        proof {
            assert(r@ =~= v@.subrange(0, i + 1));
        }
        i = i + 1;
    }
    proof {
        assert(r@ =~= v@);
    }
    r
}

} // verus!
