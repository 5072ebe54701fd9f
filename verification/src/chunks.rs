//! Cutting an archive into fixed-size parts and gluing the parts back together.
use vstd::prelude::*;

verus! {

/// The parts of `data` of at most `size` bytes each, in order: every part but the
/// last holds exactly `size` bytes, and no part is empty. A size of zero gives no parts.
pub open spec fn split_spec(data: Seq<u8>, size: nat) -> Seq<Seq<u8>>
    decreases data.len(),
{
    if size == 0 || data.len() == 0 {
        Seq::empty()
    } else if data.len() <= size {
        seq![data]
    } else {
        seq![data.take(size as int)] + split_spec(data.skip(size as int), size)
    }
}

/// The byte contents of a run of buffers.
pub open spec fn parts_view(parts: Seq<Vec<u8>>) -> Seq<Seq<u8>> {
    parts.map_values(|p: Vec<u8>| p@)
}

/// The parts laid end to end.
pub open spec fn join_spec(parts: Seq<Seq<u8>>) -> Seq<u8>
    decreases parts.len(),
{
    if parts.len() == 0 {
        Seq::empty()
    } else {
        join_spec(parts.drop_last()) + parts.last()
    }
}

/// Joining one more part at the end appends its bytes.
pub proof fn lemma_join_push(parts: Seq<Seq<u8>>, p: Seq<u8>)
    ensures
        join_spec(parts.push(p)) == join_spec(parts) + p,
{
    assert(parts.push(p).drop_last() =~= parts);
}

/// Joining two runs of parts joins their results.
pub proof fn lemma_join_concat(a: Seq<Seq<u8>>, b: Seq<Seq<u8>>)
    ensures
        join_spec(a + b) == join_spec(a) + join_spec(b),
    decreases b.len(),
{
    if b.len() == 0 {
        assert(a + b =~= a);
        assert(join_spec(a) + join_spec(b) =~= join_spec(a));
    } else {
        lemma_join_concat(a, b.drop_last());
        assert((a + b).drop_last() =~= a + b.drop_last());
        assert(join_spec(a + b) == join_spec(a + b.drop_last()) + b.last());
        assert(join_spec(a) + join_spec(b) =~= join_spec(a) + join_spec(b.drop_last()) + b.last());
    }
}

/// Splitting `data` into parts of a positive size and joining the parts gives `data` back.
pub proof fn lemma_join_split(data: Seq<u8>, size: nat)
    requires
        size > 0,
    ensures
        join_spec(split_spec(data, size)) == data,
    decreases data.len(),
{
    if data.len() == 0 {
        assert(join_spec(Seq::<Seq<u8>>::empty()) =~= data);
    } else if data.len() <= size {
        lemma_join_push(Seq::empty(), data);
        assert(seq![data] =~= Seq::<Seq<u8>>::empty().push(data));
        assert(Seq::<u8>::empty() + data =~= data);
    } else {
        lemma_join_split(data.skip(size as int), size);
        lemma_join_concat(seq![data.take(size as int)], split_spec(data.skip(size as int), size));
        lemma_join_push(Seq::empty(), data.take(size as int));
        assert(seq![data.take(size as int)] =~= Seq::<Seq<u8>>::empty().push(data.take(size as int)));
        assert(Seq::<u8>::empty() + data.take(size as int) =~= data.take(size as int));
        assert(data.take(size as int) + data.skip(size as int) =~= data);
    }
}

/// The shape of a split: every part is non-empty and no longer than `size`, every
/// part but the last is exactly `size` long, and there are as many parts as the
/// ceiling of `data.len() / size`.
pub proof fn lemma_split_shape(data: Seq<u8>, size: nat)
    requires
        size > 0,
    ensures
        forall|i: int|
            0 <= i < split_spec(data, size).len() ==> 0 < #[trigger] split_spec(data, size)[i].len()
                <= size,
        forall|i: int|
            0 <= i < split_spec(data, size).len() - 1 ==> #[trigger] split_spec(data, size)[i].len()
                == size,
        split_spec(data, size).len() * size >= data.len(),
        data.len() > (split_spec(data, size).len() - 1) * size,
        split_spec(data, size).len() <= data.len(),
    decreases data.len(),
{
    if data.len() == 0 {
        assert(0 * size == 0) by (nonlinear_arith);
        assert((0 - 1) * size == -size) by (nonlinear_arith);
    } else if data.len() <= size {
        assert(1 * size == size) by (nonlinear_arith);
        assert((1 - 1) * size == 0) by (nonlinear_arith);
    } else {
        let rest = split_spec(data.skip(size as int), size);
        lemma_split_shape(data.skip(size as int), size);
        let s = split_spec(data, size);
        assert(s == seq![data.take(size as int)] + rest);
        assert forall|i: int| 0 <= i < s.len() implies 0 < #[trigger] s[i].len() <= size by {
            if i > 0 {
                assert(s[i] == rest[i - 1]);
            }
        }
        assert forall|i: int| 0 <= i < s.len() - 1 implies #[trigger] s[i].len() == size by {
            if i > 0 {
                assert(s[i] == rest[i - 1]);
            }
        }
        assert(s.len() == rest.len() + 1);
        assert(s.len() * size == rest.len() * size + size) by (nonlinear_arith)
            requires
                s.len() == rest.len() + 1,
        ;
        assert((s.len() - 1) * size == (rest.len() - 1) * size + size) by (nonlinear_arith)
            requires
                s.len() == rest.len() + 1,
        ;
    }
}

/// Copies `data[from..to]` into a fresh vector.
fn copy_range(data: &[u8], from: usize, to: usize) -> (r: Vec<u8>)
    requires
        from <= to <= data@.len(),
    ensures
        r@ == data@.subrange(from as int, to as int),
{
    let mut r: Vec<u8> = Vec::new();
    let mut i = from;
    while i < to
        invariant
            from <= i <= to <= data@.len(),
            r@ == data@.subrange(from as int, i as int),
        decreases to - i,
    {
        r.push(data[i]);
        i = i + 1;
        assert(r@ =~= data@.subrange(from as int, i as int));
    }
    r
}

/// Cuts `data` into parts of `size` bytes, the last one possibly shorter.
pub fn split_chunks(data: &[u8], size: usize) -> (parts: Vec<Vec<u8>>)
    ensures
        parts_view(parts@) == split_spec(data@, size as nat),
{
    let mut parts: Vec<Vec<u8>> = Vec::new();
    if size == 0 {
        assert(parts_view(parts@) =~= split_spec(data@, size as nat));
        return parts;
    }
    let len = data.len();
    let mut pos: usize = 0;
    assert(data@.skip(0) =~= data@);
    while pos < len
        invariant
            size > 0,
            len == data@.len(),
            pos <= len,
            split_spec(data@, size as nat) == parts_view(parts@) + split_spec(
                data@.skip(pos as int),
                size as nat,
            ),
        decreases len - pos,
    {
        let ghost before = parts_view(parts@);
        let ghost rest = data@.skip(pos as int);
        if len - pos <= size {
            let part = copy_range(data, pos, len);
            assert(part@ =~= rest);
            parts.push(part);
            assert(parts_view(parts@) =~= before.push(rest));
            assert(split_spec(data@.skip(len as int), size as nat) =~= Seq::<Seq<u8>>::empty());
            assert(split_spec(rest, size as nat) == seq![rest]);
            assert(before + seq![rest] =~= before.push(rest) + Seq::<Seq<u8>>::empty());
            pos = len;
        } else {
            let part = copy_range(data, pos, pos + size);
            assert(part@ =~= rest.take(size as int));
            parts.push(part);
            assert(rest.skip(size as int) =~= data@.skip(pos + size));
            assert(parts_view(parts@) =~= before.push(rest.take(size as int)));
            assert(split_spec(rest, size as nat) == seq![rest.take(size as int)] + split_spec(
                data@.skip(pos + size),
                size as nat,
            ));
            assert(before + (seq![rest.take(size as int)] + split_spec(
                data@.skip(pos + size),
                size as nat,
            )) =~= before.push(rest.take(size as int)) + split_spec(
                data@.skip(pos + size),
                size as nat,
            ));
            pos = pos + size;
        }
    }
    assert(split_spec(data@.skip(len as int), size as nat) =~= Seq::<Seq<u8>>::empty());
    assert(parts_view(parts@) + Seq::<Seq<u8>>::empty() =~= parts_view(parts@));
    parts
}

/// Lays the parts end to end.
pub fn join_chunks(parts: &Vec<Vec<u8>>) -> (r: Vec<u8>)
    ensures
        r@ == join_spec(parts_view(parts@)),
{
    let mut r: Vec<u8> = Vec::new();
    let mut k: usize = 0;
    assert(parts_view(parts@).take(0) =~= Seq::<Seq<u8>>::empty());
    while k < parts.len()
        invariant
            k <= parts.len(),
            r@ == join_spec(parts_view(parts@).take(k as int)),
        decreases parts.len() - k,
    {
        let part = &parts[k];
        let ghost before = r@;
        let mut i: usize = 0;
        while i < part.len()
            invariant
                i <= part.len(),
                r@ == before + part@.take(i as int),
            decreases part.len() - i,
        {
            r.push(part[i]);
            i = i + 1;
            assert(r@ =~= before + part@.take(i as int));
        }
        assert(part@.take(part.len() as int) =~= part@);
        proof {
            lemma_join_push(parts_view(parts@).take(k as int), part@);
            assert(parts_view(parts@).take(k as int).push(part@) =~= parts_view(parts@).take(k + 1));
        }
        k = k + 1;
    }
    assert(parts_view(parts@).take(parts.len() as int) =~= parts_view(parts@));
    r
}

} // verus!
