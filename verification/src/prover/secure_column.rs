//! A column of secure-field values, stored as four columns of base-field coordinates.

use vstd::prelude::*;
use crate::fields::cm31::CM31;
use crate::fields::m31::M31;
use crate::fields::qm31::QM31;
use crate::utils::copy_vec;

verus! {

/// A column of values of the extension field, by coordinates.
#[derive(Debug)]
pub struct SecureColumnByCoords {
    c0: Vec<M31>,
    c1: Vec<M31>,
    c2: Vec<M31>,
    c3: Vec<M31>,
}

impl View for SecureColumnByCoords {
    type V = Seq<QM31>;

    /// The values of the column.
    closed spec fn view(&self) -> Seq<QM31> {
        Seq::new(
            self.c0@.len(),
            |i: int| QM31(CM31(self.c0@[i], self.c1@[i]), CM31(self.c2@[i], self.c3@[i])),
        )
    }
}

impl Clone for SecureColumnByCoords {
    fn clone(&self) -> (r: SecureColumnByCoords)
        ensures
            r@ == self@,
            self.wf() ==> r.wf(),
    {
        let r = SecureColumnByCoords {
            c0: copy_vec(&self.c0),
            c1: copy_vec(&self.c1),
            c2: copy_vec(&self.c2),
            c3: copy_vec(&self.c3),
        };
        assert(r@ =~= self@);
        r
    }
}

impl SecureColumnByCoords {
    /// The `k`-th coordinate column.
    pub closed spec fn spec_column(self, k: int) -> Seq<M31> {
        if k == 0 {
            self.c0@
        } else if k == 1 {
            self.c1@
        } else if k == 2 {
            self.c2@
        } else {
            self.c3@
        }
    }

    /// The four coordinate columns have the length of the column.
    pub closed spec fn wf(self) -> bool {
        self.c1@.len() == self.c0@.len() && self.c2@.len() == self.c0@.len() && self.c3@.len()
            == self.c0@.len()
    }

    /// The coordinate columns of a valid column have its length.
    pub proof fn lemma_lengths(self)
        requires
            self.wf(),
        ensures
            forall|k: int| 0 <= k < 4 ==> (#[trigger] self.spec_column(k)).len() == self@.len(),
    {
    }

    /// The coordinate columns hold the coordinates of the values.
    pub proof fn lemma_coordinates(self)
        requires
            self.wf(),
        ensures
            forall|k: int|
                0 <= k < 4 ==> #[trigger] self.spec_column(k) == Seq::new(
                    self@.len(),
                    |i: int| self@[i].spec_to_m31_array()[k],
                ),
    {
        assert forall|k: int| 0 <= k < 4 implies #[trigger] self.spec_column(k) == Seq::new(
            self@.len(),
            |i: int| self@[i].spec_to_m31_array()[k],
        ) by {
            assert(self.spec_column(k) =~= Seq::new(
                self@.len(),
                |i: int| self@[i].spec_to_m31_array()[k],
            ));
        }
    }

    /// A column of `len` zeros.
    pub fn zeros(len: usize) -> (r: SecureColumnByCoords)
        ensures
            r@ == Seq::new(len as nat, |i: int| QM31::spec_zero()),
            r.wf(),
    {
        let r = SecureColumnByCoords {
            c0: zero_column(len),
            c1: zero_column(len),
            c2: zero_column(len),
            c3: zero_column(len),
        };
        assert(r@ =~= Seq::new(len as nat, |i: int| QM31::spec_zero()));
        r
    }

    /// The column of the given values.
    pub fn from_vec(values: &Vec<QM31>) -> (r: SecureColumnByCoords)
        ensures
            r@ == values@,
            r.wf(),
    {
        let n = values.len();
        let mut c0: Vec<M31> = Vec::with_capacity(n);
        let mut c1: Vec<M31> = Vec::with_capacity(n);
        let mut c2: Vec<M31> = Vec::with_capacity(n);
        let mut c3: Vec<M31> = Vec::with_capacity(n);
        let mut i: usize = 0;
        while i < n
            invariant
                i <= n,
                n == values.len(),
                c0.len() == i,
                c1.len() == i,
                c2.len() == i,
                c3.len() == i,
                forall|j: int|
                    0 <= j < i ==> values[j] == QM31(CM31(c0[j], c1[j]), CM31(c2[j], c3[j])),
            decreases n - i,
        {
            let v = values[i];
            c0.push(v.0.0);
            c1.push(v.0.1);
            c2.push(v.1.0);
            c3.push(v.1.1);
            i = i + 1;
        }
        let r = SecureColumnByCoords { c0, c1, c2, c3 };
        assert(r@ =~= values@);
        r
    }

    /// The values of the column.
    pub fn to_vec(&self) -> (r: Vec<QM31>)
        requires
            self.wf(),
        ensures
            r@ == self@,
    {
        let n = self.c0.len();
        let mut out: Vec<QM31> = Vec::with_capacity(n);
        let mut i: usize = 0;
        while i < n
            invariant
                i <= n,
                self.wf(),
                n == self@.len(),
                out.len() == i,
                forall|j: int| 0 <= j < i ==> out[j] == self@[j],
            decreases n - i,
        {
            out.push(self.at(i));
            i = i + 1;
        }
        assert(out@ =~= self@);
        out
    }

    pub fn len(&self) -> (r: usize)
        ensures
            r == self@.len(),
    {
        self.c0.len()
    }

    pub fn is_empty(&self) -> (r: bool)
        ensures
            r == (self@.len() == 0),
    {
        self.c0.len() == 0
    }

    /// The value at `index`.
    pub fn at(&self, index: usize) -> (r: QM31)
        requires
            self.wf(),
            index < self@.len(),
        ensures
            r == self@[index as int],
    {
        QM31(
            CM31(self.c0[index], self.c1[index]),
            CM31(self.c2[index], self.c3[index]),
        )
    }

    /// Puts `value` at `index`.
    pub fn set(&mut self, index: usize, value: QM31)
        requires
            old(self).wf(),
            index < old(self)@.len(),
        ensures
            final(self)@ == old(self)@.update(index as int, value),
            final(self).wf(),
    {
        self.c0.set(index, value.0.0);
        self.c1.set(index, value.0.1);
        self.c2.set(index, value.1.0);
        self.c3.set(index, value.1.1);
        assert(self@ =~= old(self)@.update(index as int, value));
    }

    /// The `k`-th coordinate column.
    pub fn column(&self, k: usize) -> (r: &Vec<M31>)
        requires
            self.wf(),
            k < 4,
        ensures
            r@ == self.spec_column(k as int),
            r.len() == self@.len(),
    {
        if k == 0 {
            &self.c0
        } else if k == 1 {
            &self.c1
        } else if k == 2 {
            &self.c2
        } else {
            &self.c3
        }
    }
}

/// A column of `len` zeros.
fn zero_column(len: usize) -> (r: Vec<M31>)
    ensures
        r.len() == len,
        forall|i: int| 0 <= i < len ==> r[i] == M31::spec_zero(),
{
    let mut out: Vec<M31> = Vec::with_capacity(len);
    let mut i: usize = 0;
    while i < len
        invariant
            i <= len,
            out.len() == i,
            forall|j: int| 0 <= j < i ==> out[j] == M31::spec_zero(),
        decreases len - i,
    {
        out.push(M31::zero());
        i = i + 1;
    }
    out
}

} // verus!
