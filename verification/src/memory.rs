use crate::text::append;
use vstd::prelude::*;

verus! {

/// A handle to a string that a [`Heap`] owns: the string's place in the
/// heap's table. It stays valid until the heap is cleared.
///
/// `==` on handles compares the places, not the texts. Two handles from the
/// intern pool of one heap are equal exactly when their texts are (see
/// [`lemma_interned_identity`]); a handle from [`Heap::manage`] equals no
/// other. [`Heap::same`] compares the texts of any two handles.
#[derive(Clone, Copy, PartialEq, Eq, Structural, Debug)]
pub struct Ref {
    pub index: usize,
}

/// Owner of every string that a program creates.
///
/// `values` is the table that handles index. `strings` is the intern pool:
/// the handles of the strings that entered through [`Heap::manage_str`].
pub struct Heap {
    values: Vec<Vec<u8>>,
    strings: Vec<usize>,
}

/// The pool's handles are live, and no two of them hold the same text.
pub open spec fn pool_wf(objects: Seq<Seq<u8>>, pool: Seq<usize>) -> bool {
    &&& forall|k: int| 0 <= k < pool.len() ==> (#[trigger] pool[k]) < objects.len()
    &&& forall|j: int, k: int|
        0 <= j < k < pool.len() ==> objects[pool[j] as int] != objects[pool[k] as int]
}

/// The `k`-th handle of the pool holds `text`.
pub open spec fn interned_at(
    objects: Seq<Seq<u8>>,
    pool: Seq<usize>,
    text: Seq<u8>,
    k: int,
) -> bool {
    0 <= k < pool.len() && pool[k] < objects.len() && objects[pool[k] as int] == text
}

/// Some handle of the pool holds `text`.
pub open spec fn is_interned(objects: Seq<Seq<u8>>, pool: Seq<usize>, text: Seq<u8>) -> bool {
    exists|k: int| interned_at(objects, pool, text, k)
}

/// The index of the handle that interning `text` yields: the pooled one that
/// holds `text` if there is one, else the next free place in the table.
pub open spec fn intern_index(objects: Seq<Seq<u8>>, pool: Seq<usize>, text: Seq<u8>) -> int {
    if is_interned(objects, pool, text) {
        pool[choose|k: int| interned_at(objects, pool, text, k)] as int
    } else {
        objects.len() as int
    }
}

/// The table after interning `text`.
pub open spec fn intern_objects(
    objects: Seq<Seq<u8>>,
    pool: Seq<usize>,
    text: Seq<u8>,
) -> Seq<Seq<u8>> {
    if is_interned(objects, pool, text) {
        objects
    } else {
        objects.push(text)
    }
}

/// The pool after interning `text`.
pub open spec fn intern_pool(objects: Seq<Seq<u8>>, pool: Seq<usize>, text: Seq<u8>) -> Seq<
    usize,
> {
    if is_interned(objects, pool, text) {
        pool
    } else {
        pool.push(objects.len() as usize)
    }
}

/// Byte-wise comparison of two strings.
pub fn same_bytes(a: &Vec<u8>, b: &Vec<u8>) -> (same: bool)
    ensures
        same == (a@ == b@),
{
    if a.len() != b.len() {
        return false;
    }
    let mut i: usize = 0;
    while i < a.len()
        invariant
            i <= a.len(),
            a.len() == b.len(),
            forall|j: int| 0 <= j < i ==> a@[j] == b@[j],
        decreases a.len() - i,
    {
        if a[i] != b[i] {
            return false;
        }
        i += 1;
    }
    assert(a@ =~= b@);
    true
}

/// The bytes of `a` followed by the bytes of `b`.
pub fn joined(a: &Vec<u8>, b: &Vec<u8>) -> (text: Vec<u8>)
    ensures
        text@ == a@ + b@,
{
    let mut text: Vec<u8> = Vec::new();
    append(&mut text, a.as_slice());
    append(&mut text, b.as_slice());
    assert(text@ =~= a@ + b@);
    text
}

impl Heap {
    /// The strings that the heap owns, in handle order.
    pub closed spec fn objects(&self) -> Seq<Seq<u8>> {
        Seq::new(self.values@.len(), |i: int| self.values@[i]@)
    }

    /// The handles of the intern pool, oldest first.
    pub closed spec fn pool(&self) -> Seq<usize> {
        self.strings@
    }

    /// The heap's invariant: see [`pool_wf`].
    pub open spec fn wf(&self) -> bool {
        pool_wf(self.objects(), self.pool())
    }

    /// `r` is a handle into this heap.
    pub open spec fn holds(&self, r: Ref) -> bool {
        r.index < self.objects().len()
    }

    pub fn new() -> (heap: Heap)
        ensures
            heap.wf(),
            heap.objects() == Seq::<Seq<u8>>::empty(),
            heap.pool() == Seq::<usize>::empty(),
    {
        let heap = Heap { values: Vec::new(), strings: Vec::new() };
        assert(heap.objects() =~= Seq::<Seq<u8>>::empty());
        heap
    }

    /// Takes ownership of `obj` and returns a fresh handle to it. The string
    /// does not enter the intern pool.
    pub fn manage(&mut self, obj: Vec<u8>) -> (r: Ref)
        requires
            old(self).wf(),
        ensures
            final(self).wf(),
            r.index == old(self).objects().len(),
            final(self).objects() == old(self).objects().push(obj@),
            final(self).pool() == old(self).pool(),
    {
        let index = self.values.len();
        self.values.push(obj);
        assert(self.objects() =~= old(self).objects().push(obj@));
        Ref { index }
    }

    /// Interns `str`: returns the pooled handle that holds the same text if
    /// there is one, and otherwise stores `str`, pools it and returns its
    /// handle.
    pub fn manage_str(&mut self, str: Vec<u8>) -> (r: Ref)
        requires
            old(self).wf(),
        ensures
            final(self).wf(),
            r.index == intern_index(old(self).objects(), old(self).pool(), str@),
            final(self).objects() == intern_objects(old(self).objects(), old(self).pool(), str@),
            final(self).pool() == intern_pool(old(self).objects(), old(self).pool(), str@),
    {
        let ghost objects = self.objects();
        let ghost pool = self.pool();
        let mut k: usize = 0;
        while k < self.strings.len()
            invariant
                *self == *old(self),
                self.wf(),
                objects == self.objects(),
                pool == self.pool(),
                k <= self.strings@.len(),
                forall|j: int| 0 <= j < k ==> !interned_at(objects, pool, str@, j),
            decreases self.strings@.len() - k,
        {
            let index = self.strings[k];
            assert(index == self.pool()[k as int]);
            if same_bytes(&self.values[index], &str) {
                proof {
                    assert(interned_at(objects, pool, str@, k as int));
                    let c = choose|c: int| interned_at(objects, pool, str@, c);
                    if c < k {
                        assert(objects[pool[c] as int] != objects[pool[k as int] as int]);
                    } else if k < c {
                        assert(objects[pool[k as int] as int] != objects[pool[c] as int]);
                    }
                }
                return Ref { index };
            }
            k += 1;
        }
        let index = self.values.len();
        self.values.push(str);
        self.strings.push(index);
        proof {
            assert(!is_interned(objects, pool, str@));
            assert(self.objects() =~= objects.push(str@));
            assert forall|i: int, j: int| 0 <= i < j < self.pool().len() implies self.objects()[self.pool()[i] as int]
                != self.objects()[self.pool()[j] as int] by {
                if j == pool.len() {
                    assert(!interned_at(objects, pool, str@, i));
                }
            }
        }
        Ref { index }
    }

    /// Whether two handles hold the same text.
    pub fn same(&self, a: Ref, b: Ref) -> (same: bool)
        requires
            self.holds(a),
            self.holds(b),
        ensures
            same == (self.objects()[a.index as int] == self.objects()[b.index as int]),
    {
        a.index == b.index || same_bytes(&self.values[a.index], &self.values[b.index])
    }

    /// Releases every string. All handles into the heap become invalid.
    pub fn clear(&mut self)
        ensures
            final(self).wf(),
            final(self).objects() == Seq::<Seq<u8>>::empty(),
            final(self).pool() == Seq::<usize>::empty(),
    {
        self.values.clear();
        self.strings.clear();
        assert(self.objects() =~= Seq::<Seq<u8>>::empty());
    }

    /// The number of strings that the heap owns.
    pub fn len(&self) -> (n: usize)
        ensures
            n == self.objects().len(),
    {
        self.values.len()
    }
}

impl Ref {
    /// The string behind the handle.
    pub fn obj<'a>(&self, heap: &'a Heap) -> (text: &'a Vec<u8>)
        requires
            heap.holds(*self),
        ensures
            text@ == heap.objects()[self.index as int],
    {
        &heap.values[self.index]
    }
}

/// Two handles from the intern pool of one heap are the same handle exactly
/// when their strings are the same.
pub proof fn lemma_interned_identity(heap: Heap, a: Ref, b: Ref)
    requires
        heap.wf(),
        heap.pool().contains(a.index),
        heap.pool().contains(b.index),
    ensures
        a == b <==> heap.objects()[a.index as int] == heap.objects()[b.index as int],
{
    let i = choose|i: int| 0 <= i < heap.pool().len() && heap.pool()[i] == a.index;
    let j = choose|j: int| 0 <= j < heap.pool().len() && heap.pool()[j] == b.index;
    if i < j {
        assert(heap.objects()[heap.pool()[i] as int] != heap.objects()[heap.pool()[j] as int]);
    } else if j < i {
        assert(heap.objects()[heap.pool()[j] as int] != heap.objects()[heap.pool()[i] as int]);
    }
}

} // verus!
