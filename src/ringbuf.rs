use vstd::prelude::*;

verus! {

/// Storage for a ring of values: `begin` is where reading resumes, `end`
/// where writing resumes, and the values in between (wrapping at the end of
/// the storage) are held.
pub struct Ringbuf<T> {
    data: Vec<T>,
    begin: usize,
    end: usize,
}

impl<T> Ringbuf<T> {
    pub closed spec fn spec_size(&self) -> nat {
        self.data@.len()
    }

    pub closed spec fn spec_begin(&self) -> nat {
        self.begin as nat
    }

    pub closed spec fn spec_end(&self) -> nat {
        self.end as nat
    }

    pub open spec fn wf(&self) -> bool {
        self.spec_begin() < self.spec_size() && self.spec_end() < self.spec_size()
    }

    /// An empty ring over `data`.
    pub fn new(data: Vec<T>) -> (r: Self)
        requires
            data@.len() > 0,
        ensures
            r.wf(),
            r.spec_size() == data@.len(),
            r.spec_begin() == 0 && r.spec_end() == 0,
    {
        Self { data, begin: 0, end: 0 }
    }

    /// How many slots the storage has.
    pub fn size(&self) -> (r: usize)
        ensures
            r == self.spec_size(),
    {
        self.data.len()
    }

    /// The held values lie in one run, without wrapping.
    pub fn contiguous(&self) -> (r: bool)
        ensures
            r == (self.spec_end() >= self.spec_begin()),
    {
        self.end >= self.begin
    }

    /// How many values are held.
    pub fn len(&self) -> (r: usize)
        requires
            self.wf(),
        ensures
            r == (self.spec_end() - self.spec_begin()) % (self.spec_size() as int),
    {
        if self.begin <= self.end {
            proof {
                vstd::arithmetic::div_mod::lemma_small_mod(
                    (self.end - self.begin) as nat,
                    self.data@.len(),
                );
            }
            self.end - self.begin
        } else {
            proof {
                let d = self.end as int - self.begin as int;
                vstd::arithmetic::div_mod::lemma_mod_add_multiples_vanish(d, self.data@.len() as int);
                vstd::arithmetic::div_mod::lemma_small_mod(
                    (d + self.data@.len()) as nat,
                    self.data@.len(),
                );
            }
            self.data.len() - self.begin + self.end
        }
    }
}

} // verus!
