use vstd::prelude::*;

verus! {

/// The concatenation of the fragments' bytes.
pub open spec fn joined(fs: Seq<Vec<u8>>) -> Seq<u8>
    decreases fs.len(),
{
    if fs.len() == 0 {
        Seq::empty()
    } else {
        joined(fs.drop_last()) + fs.last()@
    }
}

/// A payload: one contiguous buffer, or fragments to be written one after another.
#[derive(Debug)]
pub enum Bytes {
    Bytes(Vec<u8>),
    Fragments(Vec<Vec<u8>>),
}

impl View for Bytes {
    type V = Seq<u8>;

    open spec fn view(&self) -> Seq<u8> {
        match self {
            Bytes::Bytes(v) => v@,
            Bytes::Fragments(fs) => joined(fs@),
        }
    }
}

impl Bytes {
    /// The number of bytes.
    pub fn len(&self) -> (r: usize)
        requires
            self@.len() <= usize::MAX,
        ensures
            r == self@.len(),
    {
        match self {
            Bytes::Bytes(v) => v.len(),
            Bytes::Fragments(fs) => {
                let mut total: usize = 0;
                let mut i: usize = 0;
                while i < fs.len()
                    invariant
                        i <= fs@.len(),
                        total == joined(fs@.subrange(0, i as int)).len(),
                        joined(fs@).len() <= usize::MAX,
                    decreases fs@.len() - i,
                {
                    proof {
                        lemma_joined_prefix_len(fs@, i as int + 1);
                    }
                    assert(fs@.subrange(0, i + 1).drop_last() =~= fs@.subrange(0, i as int));
                    total = total + fs[i].len();
                    i = i + 1;
                }
                assert(fs@.subrange(0, i as int) =~= fs@);
                total
            },
        }
    }

    /// All the bytes in one buffer.
    pub fn into_vec(self) -> (r: Vec<u8>)
        ensures
            r@ == self@,
    {
        match self {
            Bytes::Bytes(v) => v,
            Bytes::Fragments(fs) => {
                let mut out: Vec<u8> = Vec::new();
                let mut i: usize = 0;
                while i < fs.len()
                    invariant
                        i <= fs@.len(),
                        out@ == joined(fs@.subrange(0, i as int)),
                    decreases fs@.len() - i,
                {
                    let f = &fs[i];
                    let ghost before = out@;
                    let mut j: usize = 0;
                    while j < f.len()
                        invariant
                            j <= f@.len(),
                            out@ == before + f@.subrange(0, j as int),
                        decreases f@.len() - j,
                    {
                        out.push(f[j]);
                        j = j + 1;
                        assert(out@ =~= before + f@.subrange(0, j as int));
                    }
                    assert(f@.subrange(0, j as int) =~= f@);
                    assert(fs@.subrange(0, i + 1).drop_last() =~= fs@.subrange(0, i as int));
                    i = i + 1;
                }
                assert(fs@.subrange(0, i as int) =~= fs@);
                out
            },
        }
    }

    /// Splits off the first `n` bytes and returns them; the rest stays.
    pub fn pop(&mut self, n: usize) -> (r: Bytes)
        requires
            n <= old(self)@.len(),
        ensures
            r@ == old(self)@.subrange(0, n as int),
            final(self)@ == old(self)@.subrange(n as int, old(self)@.len() as int),
    {
        let mut taken = Bytes::Bytes(Vec::new());
        std::mem::swap(self, &mut taken);
        let whole = taken.into_vec();
        let mut head: Vec<u8> = Vec::new();
        let mut tail: Vec<u8> = Vec::new();
        let mut i: usize = 0;
        while i < whole.len()
            invariant
                n <= whole@.len(),
                i <= whole@.len(),
                i <= n ==> head@ == whole@.subrange(0, i as int) && tail@.len() == 0,
                i > n ==> head@ == whole@.subrange(0, n as int) && tail@ == whole@.subrange(
                    n as int,
                    i as int,
                ),
            decreases whole@.len() - i,
        {
            if i < n {
                head.push(whole[i]);
            } else {
                tail.push(whole[i]);
            }
            i = i + 1;
            assert(head@ =~= whole@.subrange(0, if i <= n { i as int } else { n as int }));
            assert(i > n ==> tail@ =~= whole@.subrange(n as int, i as int));
        }
        if n == whole.len() {
            assert(tail@ =~= whole@.subrange(n as int, whole@.len() as int));
        }
        *self = Bytes::Bytes(tail);
        Bytes::Bytes(head)
    }
}

proof fn lemma_joined_prefix_len(fs: Seq<Vec<u8>>, i: int)
    requires
        0 <= i <= fs.len(),
    ensures
        joined(fs.subrange(0, i)).len() <= joined(fs).len(),
    decreases fs.len(),
{
    if i < fs.len() {
        assert(fs.drop_last() =~= fs.subrange(0, fs.len() - 1));
        lemma_joined_prefix_len(fs.drop_last(), i);
        assert(fs.drop_last().subrange(0, i) =~= fs.subrange(0, i));
    } else {
        assert(fs.subrange(0, i) =~= fs);
    }
}

} // verus!
