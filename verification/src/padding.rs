//! Multi-rate padding to a whole number of 1024-byte blocks.
use vstd::prelude::*;

verus! {

/// The block size of the sponge rate, in bytes.
pub const RATE_BYTES: usize = 1024;

/// The number of zero bytes between the three-byte header and the final 0x80.
pub open spec fn pad_zeros(len: nat) -> nat {
    ((1023 - ((len + 3) % 1024)) % 1024) as nat
}

/// `m || 0x01 || domain || 0x01 || 0x00* || 0x80`, as short as possible while
/// filling whole 1024-byte blocks.
pub open spec fn spec_pad(m: Seq<u8>, domain: u8) -> Seq<u8> {
    m + seq![1u8, domain, 1u8] + Seq::new(pad_zeros(m.len()), |i: int| 0u8) + seq![0x80u8]
}

/// The padded message fills a positive whole number of blocks, fewer than
/// 1024 bytes longer than the message plus its four framing bytes, and begins
/// with the message.
pub proof fn lemma_pad_shape(m: Seq<u8>, domain: u8)
    ensures
        spec_pad(m, domain).len() % 1024 == 0,
        spec_pad(m, domain).len() >= 1024,
        spec_pad(m, domain).len() == m.len() + 4 + pad_zeros(m.len()),
        pad_zeros(m.len()) < 1024,
        spec_pad(m, domain).subrange(0, m.len() as int) == m,
{
    let q = (m.len() + 3) % 1024;
    assert(pad_zeros(m.len()) == 1023 - q);
    let len = m.len() + 4 + pad_zeros(m.len());
    assert(len == (m.len() + 3 - q) + 1024);
    assert((m.len() + 3 - q) % 1024 == 0) by {
        vstd::arithmetic::div_mod::lemma_fundamental_div_mod((m.len() + 3) as int, 1024);
        vstd::arithmetic::div_mod::lemma_mod_multiples_basic(((m.len() + 3) / 1024) as int, 1024);
    }
    vstd::arithmetic::div_mod::lemma_mod_add_multiples_vanish((m.len() + 3 - q) as int, 1024);
    assert(spec_pad(m, domain).subrange(0, m.len() as int) =~= m);
}

/// Padding is injective: the padded bytes determine the message and the domain
/// tag. Reading back from the final 0x80, the zero bytes end at the header's
/// last 0x01.
pub proof fn lemma_pad_injective(m1: Seq<u8>, d1: u8, m2: Seq<u8>, d2: u8)
    requires
        spec_pad(m1, d1) == spec_pad(m2, d2),
    ensures
        m1 == m2,
        d1 == d2,
{
    let p = spec_pad(m1, d1);
    let l1 = m1.len() as int;
    let l2 = m2.len() as int;
    let z1 = pad_zeros(m1.len()) as int;
    let z2 = pad_zeros(m2.len()) as int;
    assert(p.len() == l1 + 4 + z1 && p.len() == l2 + 4 + z2);
    assert(p[l1 + 2] == 1u8);
    assert(spec_pad(m2, d2)[l2 + 2] == 1u8);
    assert(forall|k: int| l1 + 3 <= k < l1 + 3 + z1 ==> #[trigger] p[k] == 0u8);
    assert(forall|k: int| l2 + 3 <= k < l2 + 3 + z2 ==> #[trigger] spec_pad(m2, d2)[k] == 0u8);
    if l1 < l2 {
        assert(p[l2 + 2] == 0u8);
    }
    if l2 < l1 {
        assert(spec_pad(m2, d2)[l1 + 2] == 0u8);
    }
    assert(l1 == l2);
    assert(p[l1 + 1] == d1);
    assert(spec_pad(m2, d2)[l2 + 1] == d2);
    assert forall|k: int| 0 <= k < l1 implies m1[k] == m2[k] by {
        assert(p[k] == m1[k]);
        assert(spec_pad(m2, d2)[k] == m2[k]);
    }
    assert(m1 =~= m2);
}

/// Pads a message for absorption under the given domain tag.
pub fn pad(m: &[u8], domain: u8) -> (padded: Vec<u8>)
    requires
        m@.len() + 2048 <= usize::MAX,
    ensures
        padded@ == spec_pad(m@, domain),
{
    let mut padded: Vec<u8> = Vec::with_capacity(m.len() + 1024);
    padded.extend_from_slice(m);
    padded.push(0x01);
    padded.push(domain);
    padded.push(0x01);
    let current_len = padded.len();
    let zeros = (1023 - (current_len % 1024)) % 1024;
    let ghost head = padded@;
    assert(head =~= m@ + seq![1u8, domain, 1u8]);
    let mut k: usize = 0;
    while k < zeros
        invariant
            k <= zeros,
            zeros == pad_zeros(m@.len()),
            padded@ =~= head + Seq::new(k as nat, |i: int| 0u8),
        decreases zeros - k,
    {
        padded.push(0x00);
        k = k + 1;
    }
    padded.push(0x80);
    assert(padded@ =~= spec_pad(m@, domain));
    padded
}

} // verus!
