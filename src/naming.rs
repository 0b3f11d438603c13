use vstd::prelude::*;
use vstd::string::StringSliceAdditionalSpecFns;

verus! {

/// `a`, then `::`, then `b`, padded with zero bytes to `total` bytes.
pub open spec fn joined(a: Seq<u8>, b: Seq<u8>, total: nat) -> Seq<u8> {
    let body = a + seq![58u8, 58u8] + b;
    body + Seq::new((total - body.len()) as nat, |i: int| 0u8)
}

/// The bytes of `a`, `::` and `b` in a buffer of `total` bytes, the rest
/// zero: a qualified name built from a type's name and a field's name.
pub fn concat_str(a: &str, b: &str, total: usize) -> (r: Vec<u8>)
    requires
        a.spec_bytes().len() + b.spec_bytes().len() + 2 <= total,
    ensures
        r@ == joined(a.spec_bytes(), b.spec_bytes(), total as nat),
{
    let bytes_a = a.as_bytes();
    let bytes_b = b.as_bytes();
    let mut buffer: Vec<u8> = Vec::new();
    let mut i: usize = 0;
    while i < bytes_a.len()
        invariant
            i <= bytes_a.len(),
            buffer@ == bytes_a@.take(i as int),
        decreases bytes_a.len() - i,
    {
        buffer.push(bytes_a[i]);
        i += 1;
        assert(buffer@ == bytes_a@.take(i as int));
    }
    assert(bytes_a@.take(bytes_a@.len() as int) == bytes_a@);
    buffer.push(58u8);
    buffer.push(58u8);
    let ghost head = buffer@;
    let mut j: usize = 0;
    while j < bytes_b.len()
        invariant
            j <= bytes_b.len(),
            buffer@ == head + bytes_b@.take(j as int),
        decreases bytes_b.len() - j,
    {
        buffer.push(bytes_b[j]);
        j += 1;
        assert(buffer@ == head + bytes_b@.take(j as int));
    }
    assert(bytes_b@.take(bytes_b@.len() as int) == bytes_b@);
    let ghost body = buffer@;
    assert(body == bytes_a@ + seq![58u8, 58u8] + bytes_b@);
    while buffer.len() < total
        invariant
            body.len() <= buffer.len() <= total,
            buffer@ == body + Seq::new((buffer.len() - body.len()) as nat, |k: int| 0u8),
        decreases total - buffer.len(),
    {
        buffer.push(0u8);
        assert(buffer@ =~= body + Seq::new((buffer.len() - body.len()) as nat, |k: int| 0u8));
    }
    buffer
}

} // verus!
