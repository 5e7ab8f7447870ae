//! Byte-level encodings shared by the protocol: big-endian integers and
//! lowercase hexadecimal, together with their exact specifications.
use vstd::prelude::*;

verus! {

/// Big-endian encoding of a `u16`, most significant byte first.
pub open spec fn u16_be_spec(x: u16) -> Seq<u8> {
    seq![(x >> 8) as u8, (x & 0xff) as u8]
}

/// Big-endian encoding of a `u64`, most significant byte first.
pub open spec fn u64_be_spec(x: u64) -> Seq<u8> {
    seq![
        ((x >> 56) & 0xff) as u8,
        ((x >> 48) & 0xff) as u8,
        ((x >> 40) & 0xff) as u8,
        ((x >> 32) & 0xff) as u8,
        ((x >> 24) & 0xff) as u8,
        ((x >> 16) & 0xff) as u8,
        ((x >> 8) & 0xff) as u8,
        (x & 0xff) as u8,
    ]
}

pub fn u16_be(x: u16) -> (r: Vec<u8>)
    ensures
        r@ == u16_be_spec(x),
{
    let mut out: Vec<u8> = Vec::new();
    proof {
        assert((x >> 8) < 256 && (x & 0xff) < 256) by (bit_vector);
    }
    out.push((x >> 8) as u8);
    out.push((x & 0xff) as u8);
    proof {
        assert(out@ =~= u16_be_spec(x));
    }
    out
}

pub fn u64_be(x: u64) -> (r: Vec<u8>)
    ensures
        r@ == u64_be_spec(x),
{
    let mut out: Vec<u8> = Vec::new();
    proof {
        assert(((x >> 56) & 0xff) < 256 && ((x >> 48) & 0xff) < 256 && ((x >> 40) & 0xff) < 256
            && ((x >> 32) & 0xff) < 256 && ((x >> 24) & 0xff) < 256 && ((x >> 16) & 0xff) < 256
            && ((x >> 8) & 0xff) < 256 && (x & 0xff) < 256) by (bit_vector);
    }
    out.push(((x >> 56) & 0xff) as u8);
    out.push(((x >> 48) & 0xff) as u8);
    out.push(((x >> 40) & 0xff) as u8);
    out.push(((x >> 32) & 0xff) as u8);
    out.push(((x >> 24) & 0xff) as u8);
    out.push(((x >> 16) & 0xff) as u8);
    out.push(((x >> 8) & 0xff) as u8);
    out.push((x & 0xff) as u8);
    proof {
        assert(out@ =~= u64_be_spec(x));
    }
    out
}

/// An element of the deep view of a vector of byte vectors is the view of
/// that element.
pub broadcast proof fn lemma_deep_view_index(v: Vec<Vec<u8>>, i: int)
    requires
        0 <= i < v@.len(),
    ensures
        #[trigger] v.deep_view()[i] == v@[i]@,
{
    assert(v.deep_view()[i] =~= v@[i]@);
}

/// A fresh vector with the same bytes.
pub fn copy_bytes(v: &Vec<u8>) -> (r: Vec<u8>)
    ensures
        r@ == v@,
{
    let mut out: Vec<u8> = Vec::new();
    let mut k: usize = 0;
    while k < v.len()
        invariant
            k <= v@.len(),
            out@ == v@.take(k as int),
        decreases v@.len() - k,
    {
        out.push(v[k]);
        proof {
            assert(out@ =~= v@.take(k as int + 1));
        }
        k += 1;
    }
    proof {
        assert(v@.take(v@.len() as int) =~= v@);
    }
    out
}

/// The bytes after the first one.
pub fn tail_bytes(v: &Vec<u8>) -> (r: Vec<u8>)
    requires
        v@.len() >= 1,
    ensures
        r@ == v@.skip(1),
{
    let mut out: Vec<u8> = Vec::new();
    let mut k: usize = 1;
    while k < v.len()
        invariant
            1 <= k <= v@.len(),
            out@.len() == k - 1,
            forall|j: int| 0 <= j < out@.len() ==> out@[j] == v@[j + 1],
        decreases v@.len() - k,
    {
        out.push(v[k]);
        k += 1;
    }
    proof {
        assert(out@ =~= v@.skip(1));
    }
    out
}

/// Byte-for-byte equality of two byte vectors.
pub fn bytes_eq(a: &Vec<u8>, b: &Vec<u8>) -> (r: bool)
    ensures
        r <==> a@ == b@,
{
    if a.len() != b.len() {
        proof {
            assert(a@.len() != b@.len());
        }
        return false;
    }
    let mut k: usize = 0;
    while k < a.len()
        invariant
            k <= a@.len(),
            a@.len() == b@.len(),
            forall|j: int| 0 <= j < k ==> a@[j] == b@[j],
        decreases a@.len() - k,
    {
        if a[k] != b[k] {
            return false;
        }
        k += 1;
    }
    proof {
        assert(a@ =~= b@);
    }
    true
}

/// Lexicographic order on byte sequences: the first differing byte decides,
/// and a proper prefix comes first.
pub open spec fn lex_lt(a: Seq<u8>, b: Seq<u8>) -> bool
    decreases a.len(),
{
    if b.len() == 0 {
        false
    } else if a.len() == 0 {
        true
    } else if a[0] < b[0] {
        true
    } else if a[0] > b[0] {
        false
    } else {
        lex_lt(a.skip(1), b.skip(1))
    }
}

/// Whether `a` comes lexicographically before `b`.
pub fn bytes_lt(a: &Vec<u8>, b: &Vec<u8>) -> (r: bool)
    ensures
        r == lex_lt(a@, b@),
{
    let mut k: usize = 0;
    proof {
        assert(a@.skip(0) =~= a@);
        assert(b@.skip(0) =~= b@);
    }
    while k < a.len() && k < b.len()
        invariant
            k <= a@.len(),
            k <= b@.len(),
            lex_lt(a@, b@) == lex_lt(a@.skip(k as int), b@.skip(k as int)),
        decreases a@.len() - k,
    {
        proof {
            assert(a@.skip(k as int)[0] == a@[k as int]);
            assert(b@.skip(k as int)[0] == b@[k as int]);
        }
        if a[k] < b[k] {
            return true;
        }
        if a[k] > b[k] {
            return false;
        }
        proof {
            assert(a@.skip(k as int).skip(1) =~= a@.skip(k as int + 1));
            assert(b@.skip(k as int).skip(1) =~= b@.skip(k as int + 1));
            assert(lex_lt(a@.skip(k as int), b@.skip(k as int)) == lex_lt(
                a@.skip(k as int + 1),
                b@.skip(k as int + 1),
            ));
        }
        k += 1;
    }
    proof {
        assert(a@.skip(k as int).len() == a@.len() - k);
        assert(b@.skip(k as int).len() == b@.len() - k);
    }
    a.len() < b.len()
}

/// No byte sequence comes before itself.
pub proof fn lemma_lex_irrefl(a: Seq<u8>)
    ensures
        !lex_lt(a, a),
    decreases a.len(),
{
    if a.len() > 0 {
        lemma_lex_irrefl(a.skip(1));
    }
}

/// A 1-based party identifier as a canonical 32-byte big-endian field
/// element: 24 zero bytes followed by the index in big-endian. Values below
/// `2^64` are far below the field order, so the encoding is canonical.
pub open spec fn index_scalar_spec(x: u64) -> Seq<u8> {
    Seq::new(24, |k: int| 0u8) + u64_be_spec(x)
}

pub fn index_scalar(x: u64) -> (r: Vec<u8>)
    ensures
        r@ == index_scalar_spec(x),
        r@.len() == 32,
{
    let mut out: Vec<u8> = Vec::new();
    let mut k: usize = 0;
    while k < 24
        invariant
            k <= 24,
            out@.len() == k,
            forall|j: int| 0 <= j < k ==> out@[j] == 0u8,
        decreases 24 - k,
    {
        out.push(0u8);
        k += 1;
    }
    let tail = u64_be(x);
    out.extend_from_slice(tail.as_slice());
    proof {
        assert(out@ =~= index_scalar_spec(x));
    }
    out
}

/// The uniform chunks of a byte sequence: `count` pieces of `size` bytes.
pub open spec fn chunks_spec(data: Seq<u8>, size: int, count: int) -> Seq<Seq<u8>> {
    Seq::new(count as nat, |k: int| data.subrange(k * size, (k + 1) * size))
}

/// The concatenation of a sequence of byte chunks, in order.
pub open spec fn concat_spec(chunks: Seq<Seq<u8>>) -> Seq<u8>
    decreases chunks.len(),
{
    if chunks.len() == 0 {
        Seq::empty()
    } else {
        concat_spec(chunks.drop_last()) + chunks.last()
    }
}

/// Concatenates byte chunks into one vector.
pub fn concat_chunks(chunks: &Vec<Vec<u8>>) -> (r: Vec<u8>)
    ensures
        r@ == concat_spec(chunks.deep_view()),
{
    let mut out: Vec<u8> = Vec::new();
    let mut k: usize = 0;
    while k < chunks.len()
        invariant
            k <= chunks@.len(),
            chunks.deep_view().len() == chunks@.len(),
            out@ == concat_spec(chunks.deep_view().take(k as int)),
        decreases chunks@.len() - k,
    {
        out.extend_from_slice(chunks[k].as_slice());
        proof {
            assert(chunks.deep_view().take(k as int + 1).drop_last() =~= chunks.deep_view().take(
                k as int,
            ));
            assert(chunks.deep_view().take(k as int + 1).last() == chunks@[k as int]@);
        }
        k += 1;
    }
    proof {
        assert(chunks.deep_view().take(chunks@.len() as int) =~= chunks.deep_view());
    }
    out
}

/// Splits `data` into `count` chunks of `size` bytes each; `None` exactly
/// when the length is not `size * count`.
pub fn split_chunks(data: &Vec<u8>, size: usize, count: usize) -> (r: Option<Vec<Vec<u8>>>)
    requires
        size >= 1,
    ensures
        r is Some <==> data@.len() == size * count,
        r is Some ==> {
            &&& r->Some_0@.len() == count
            &&& forall|k: int|
                0 <= k < count ==> (#[trigger] r->Some_0@[k])@ == data@.subrange(
                    k * size,
                    (k + 1) * size,
                )
        },
{
    let mut out: Vec<Vec<u8>> = Vec::new();
    let mut k: usize = 0;
    let mut pos: usize = 0;
    while k < count
        invariant
            k <= count,
            size >= 1,
            pos <= data@.len(),
            pos as int == k as int * size as int,
            out@.len() == k,
            forall|j: int|
                0 <= j < k ==> (#[trigger] out@[j])@ == data@.subrange(j * size, (j + 1) * size),
        decreases count - k,
    {
        if data.len() - pos < size {
            proof {
                assert(data@.len() < (k as int + 1) * size as int) by (nonlinear_arith)
                    requires
                        data@.len() - pos < size,
                        pos as int == k as int * size as int,
                ;
                assert((k as int + 1) * size as int <= count as int * size as int)
                    by (nonlinear_arith)
                    requires
                        k as int + 1 <= count as int,
                        size >= 1,
                ;
            }
            return None;
        }
        let dlen: usize = data.len();
        let mut chunk: Vec<u8> = Vec::new();
        let mut off: usize = 0;
        while off < size
            invariant
                off <= size,
                size >= 1,
                dlen == data@.len(),
                pos + size <= dlen,
                pos as int == k as int * size as int,
                chunk@.len() == off,
                forall|j: int| 0 <= j < off ==> chunk@[j] == data@[pos + j],
            decreases size - off,
        {
            chunk.push(data[pos + off]);
            off += 1;
        }
        proof {
            assert(chunk@ =~= data@.subrange(
                k as int * size as int,
                k as int * size as int + size as int,
            ));
            assert((k as int + 1) * size as int == k as int * size as int + size as int)
                by (nonlinear_arith);
        }
        out.push(chunk);
        pos += size;
        proof {
            assert(pos as int == (k as int + 1) * size as int) by (nonlinear_arith)
                requires
                    pos as int == k as int * size as int + size as int,
            ;
        }
        k += 1;
    }
    if pos != data.len() {
        return None;
    }
    Some(out)
}
pub open spec fn hex_digit_spec(n: u8) -> u8
    recommends
        n < 16,
{
    if n < 10 {
        (0x30 + n) as u8
    } else {
        (0x57 + n) as u8
    }
}

/// Lowercase hexadecimal encoding: two ASCII digits per byte, high nibble first.
pub open spec fn hex_spec(s: Seq<u8>) -> Seq<u8>
    decreases s.len(),
{
    if s.len() == 0 {
        Seq::empty()
    } else {
        seq![
            hex_digit_spec((s[0] >> 4) as u8),
            hex_digit_spec((s[0] & 0xf) as u8),
        ] + hex_spec(s.skip(1))
    }
}

fn hex_digit(n: u8) -> (r: u8)
    requires
        n < 16,
    ensures
        r == hex_digit_spec(n),
{
    if n < 10 {
        0x30 + n
    } else {
        0x57 + n
    }
}

/// Encodes bytes as lowercase ASCII hexadecimal, two digits per byte.
pub fn hex_encode(s: &Vec<u8>) -> (r: Vec<u8>)
    ensures
        r@ == hex_spec(s@),
        r@.len() == 2 * s@.len(),
{
    proof {
        lemma_hex_spec_len(s@);
    }
    let mut out: Vec<u8> = Vec::new();
    let mut k: usize = 0;
    while k < s.len()
        invariant
            k <= s@.len(),
            out@ == hex_spec(s@.take(k as int)),
            out@.len() == 2 * k,
        decreases s@.len() - k,
    {
        let b = s[k];
        proof {
            assert((b >> 4) < 16 && (b & 0xf) < 16) by (bit_vector);
        }
        let hi = hex_digit(b >> 4);
        let lo = hex_digit(b & 0xf);
        out.push(hi);
        out.push(lo);
        proof {
            lemma_hex_spec_snoc(s@, k as int);
            assert(out@ =~= hex_spec(s@.take(k as int + 1)));
        }
        k += 1;
    }
    proof {
        assert(s@.take(s@.len() as int) =~= s@);
    }
    out
}

/// The length of a hexadecimal encoding is twice that of its input.
proof fn lemma_hex_spec_len(s: Seq<u8>)
    ensures
        hex_spec(s).len() == 2 * s.len(),
    decreases s.len(),
{
    if s.len() > 0 {
        lemma_hex_spec_len(s.skip(1));
    }
}

/// Extending the input by one byte appends exactly its two digits.
proof fn lemma_hex_spec_snoc(s: Seq<u8>, k: int)
    requires
        0 <= k < s.len(),
    ensures
        hex_spec(s.take(k + 1)) == hex_spec(s.take(k)) + seq![
            hex_digit_spec((s[k] >> 4) as u8),
            hex_digit_spec((s[k] & 0xf) as u8),
        ],
    decreases k,
{
    let a = s.take(k + 1);
    let b = s.take(k);
    if k == 0 {
        assert(a =~= seq![s[0]]);
        assert(a.skip(1) =~= Seq::<u8>::empty());
        assert(hex_spec(a.skip(1)) =~= Seq::<u8>::empty());
        assert(b =~= Seq::<u8>::empty());
        assert(hex_spec(a) =~= hex_spec(b) + seq![
            hex_digit_spec((s[0] >> 4) as u8),
            hex_digit_spec((s[0] & 0xf) as u8),
        ]);
    } else {
        lemma_hex_spec_snoc(s.skip(1), k - 1);
        assert(a.skip(1) =~= s.skip(1).take(k));
        assert(b.skip(1) =~= s.skip(1).take(k - 1));
        assert(s.skip(1)[k - 1] == s[k]);
        assert(a[0] == s[0] && b[0] == s[0]);
        assert(hex_spec(a) == seq![
            hex_digit_spec((a[0] >> 4) as u8),
            hex_digit_spec((a[0] & 0xf) as u8),
        ] + hex_spec(a.skip(1)));
        assert(hex_spec(a) =~= hex_spec(b) + seq![
            hex_digit_spec((s[k] >> 4) as u8),
            hex_digit_spec((s[k] & 0xf) as u8),
        ]);
    }
}

} // verus!
