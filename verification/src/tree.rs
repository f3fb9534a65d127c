//! AISE-TREE: a Merkle-style tree hash over 1 MiB leaves.
use crate::sponge;
use crate::sponge::{lemma_squeeze_len, spec_absorb, spec_init_with_ext, spec_squeeze_bytes};
use vstd::prelude::*;

verus! {

broadcast use vstd::seq_lib::group_seq_properties;

/// The size of a leaf, in bytes.
pub const LEAF_SIZE: usize = 1048576;

/// The number of children of an inner node, at most.
pub const FANOUT: usize = 16;

/// A node digest: initialise under `domain` with the output length and the
/// extension lanes, absorb `m`, squeeze `output_len` bytes.
pub open spec fn spec_node_hash(m: Seq<u8>, domain: u8, output_len: nat, ext: Seq<(usize, u64, u64)>) -> Seq<u8> {
    spec_squeeze_bytes(spec_absorb(spec_init_with_ext(domain, output_len as u64, ext), m, domain), output_len)
}

/// An extendable node output: as `spec_node_hash`, with output length 0 in the header.
pub open spec fn spec_node_xof(m: Seq<u8>, domain: u8, output_len: nat, ext: Seq<(usize, u64, u64)>) -> Seq<u8> {
    spec_squeeze_bytes(spec_absorb(spec_init_with_ext(domain, 0, ext), m, domain), output_len)
}

/// The number of pieces of at most `size` items that `len` items are cut into.
pub open spec fn n_pieces(len: nat, size: nat) -> nat
    recommends
        size > 0,
{
    if len % size == 0 {
        len / size
    } else {
        len / size + 1
    }
}

/// Piece `i` of `s`: items `i * size` up to `(i + 1) * size`, or to the end.
pub open spec fn piece<A>(s: Seq<A>, size: nat, i: int) -> Seq<A> {
    let end = if (i + 1) * size <= s.len() { (i + 1) * size } else { s.len() as int };
    s.subrange(i * size, end)
}

/// The leaf digests: leaf `i` of `l` is hashed under domain 0x10 with `(i, l)` in lane 66.
pub open spec fn spec_leaves(m: Seq<u8>) -> Seq<Seq<u8>> {
    let l = n_pieces(m.len(), LEAF_SIZE as nat);
    Seq::new(
        l,
        |i: int| spec_node_hash(piece(m, LEAF_SIZE as nat, i), 0x10, 64, seq![(66usize, i as u64, l as u64)]),
    )
}

/// Leaf `i` of a long input is the node hash of its own mebibyte
/// `m[i * 2^20 .. min((i + 1) * 2^20, |m|)]`, tagged with `(i, l)` for `l` leaves.
pub proof fn lemma_leaf_is_its_piece(m: Seq<u8>, i: int)
    requires
        0 <= i < n_pieces(m.len(), LEAF_SIZE as nat),
    ensures
        spec_leaves(m).len() == n_pieces(m.len(), LEAF_SIZE as nat),
        spec_leaves(m)[i] == spec_node_hash(
            m.subrange(
                i * 1048576,
                if (i + 1) * 1048576 <= m.len() { (i + 1) * 1048576 } else { m.len() as int },
            ),
            0x10,
            64,
            seq![(66usize, i as u64, n_pieces(m.len(), LEAF_SIZE as nat) as u64)],
        ),
{
}

/// The digests of the leaves of a long input, each the node hash of its own
/// mebibyte of `m`.
pub open spec fn leaf_hashes(m: Seq<u8>) -> Seq<Seq<u8>> {
    let l = n_pieces(m.len(), LEAF_SIZE as nat);
    Seq::new(
        l,
        |i: int|
            spec_node_hash(
                m.subrange(i * 1048576, if (i + 1) * 1048576 <= m.len() { (i + 1) * 1048576 } else { m.len() as int }),
                0x10,
                64,
                seq![(66usize, i as u64, l as u64)],
            ),
    )
}

/// A 64-byte tree digest of an input longer than one leaf is the root reached
/// from the hashes of its consecutive mebibytes.
pub proof fn lemma_tree_root_from_leaves(m: Seq<u8>)
    requires
        m.len() > LEAF_SIZE,
    ensures
        spec_tree(m, 64) == spec_reduce(leaf_hashes(m), 1).0,
{
    assert forall|i: int| 0 <= i < n_pieces(m.len(), LEAF_SIZE as nat) implies spec_leaves(m)[i] == #[trigger] leaf_hashes(m)[i] by {
        lemma_leaf_is_its_piece(m, i);
    }
    assert(spec_leaves(m) =~= leaf_hashes(m));
}

/// The pieces of `s`, in order.
pub open spec fn pieces<A>(s: Seq<A>, size: nat, n: nat) -> Seq<Seq<A>> {
    Seq::new(n, |i: int| piece(s, size, i))
}

proof fn lemma_pieces_prefix(m: Seq<u8>, k: nat)
    requires
        k <= n_pieces(m.len(), LEAF_SIZE as nat),
    ensures
        pieces(m, LEAF_SIZE as nat, k).flatten() == m.subrange(
            0,
            if k * 1048576 <= m.len() { (k * 1048576) as int } else { m.len() as int },
        ),
    decreases k,
{
    vstd::arithmetic::div_mod::lemma_fundamental_div_mod(m.len() as int, 1048576);
    if k == 0 {
        assert(pieces(m, LEAF_SIZE as nat, 0) =~= seq![]);
        assert(m.subrange(0, 0) =~= seq![]);
    } else {
        lemma_pieces_prefix(m, (k - 1) as nat);
        let prev = pieces(m, LEAF_SIZE as nat, (k - 1) as nat);
        assert(pieces(m, LEAF_SIZE as nat, k) =~= prev.push(piece(m, LEAF_SIZE as nat, k - 1)));
        prev.lemma_flatten_push(piece(m, LEAF_SIZE as nat, k - 1));
        assert((k - 1) * 1048576 <= m.len());
        let end = if k * 1048576 <= m.len() { (k * 1048576) as int } else { m.len() as int };
        assert(m.subrange(0, end) =~= m.subrange(0, (k - 1) * 1048576) + m.subrange((k - 1) * 1048576, end));
    }
}

/// The leaves cover the input exactly: their pieces, concatenated in order, are `m`.
pub proof fn lemma_pieces_cover(m: Seq<u8>)
    ensures
        pieces(m, LEAF_SIZE as nat, n_pieces(m.len(), LEAF_SIZE as nat)).flatten() == m,
{
    let l = n_pieces(m.len(), LEAF_SIZE as nat);
    vstd::arithmetic::div_mod::lemma_fundamental_div_mod(m.len() as int, 1048576);
    lemma_pieces_prefix(m, l);
    assert(l * 1048576 >= m.len());
    assert(m.subrange(0, m.len() as int) =~= m);
}

/// The level above `level`: each group of up to 16 digests, concatenated, is
/// hashed under domain 0x11 with `(depth, group size)` in lane 66.
pub open spec fn spec_next_level(level: Seq<Seq<u8>>, depth: nat) -> Seq<Seq<u8>> {
    Seq::new(
        n_pieces(level.len(), FANOUT as nat),
        |j: int|
            spec_node_hash(
                piece(level, FANOUT as nat, j).flatten(),
                0x11,
                64,
                seq![(66usize, depth as u64, piece(level, FANOUT as nat, j).len() as u64)],
            ),
    )
}

/// Grouping shrinks a level of two or more digests.
pub proof fn lemma_pieces_shrink(len: nat)
    requires
        len >= 2,
    ensures
        n_pieces(len, FANOUT as nat) < len,
        n_pieces(len, FANOUT as nat) >= 1,
{
}

/// The root digest and the depth above it, reached by grouping levels until one digest is left.
pub open spec fn spec_reduce(level: Seq<Seq<u8>>, depth: nat) -> (Seq<u8>, nat)
    decreases level.len(),
{
    if level.len() <= 1 {
        (level[0], depth)
    } else {
        proof {
            lemma_pieces_shrink(level.len());
        }
        spec_reduce(spec_next_level(level, depth), depth + 1)
    }
}

/// AISE-TREE: one leaf is hashed directly; larger inputs are cut into leaves,
/// reduced to a root, and the root is stretched to the output length when that is not 64.
pub open spec fn spec_tree(m: Seq<u8>, output_len: nat) -> Seq<u8> {
    if m.len() <= LEAF_SIZE {
        spec_node_hash(m, 0x10, output_len, seq![(66usize, 0u64, 1u64)])
    } else {
        let (root, depth) = spec_reduce(spec_leaves(m), 1);
        if output_len == 64 {
            root
        } else {
            spec_node_xof(root, 0x11, output_len, seq![(66usize, depth as u64, 1u64)])
        }
    }
}

/// The byte contents of each digest.
pub open spec fn digests(v: Seq<Vec<u8>>) -> Seq<Seq<u8>> {
    v.map_values(|d: Vec<u8>| d@)
}

fn aise_hash_tree_node(m: &[u8], domain: u8, output_len: usize, ext: &[(usize, u64, u64)]) -> (out: Vec<u8>)
    requires
        m@.len() + 2048 <= usize::MAX,
    ensures
        out@ == spec_node_hash(m@, domain, output_len as nat, ext@),
        out@.len() == output_len,
{
    let mut s = sponge::init_with_ext(domain, output_len as u64, ext);
    sponge::absorb(&mut s, m, domain);
    sponge::squeeze(&mut s, output_len)
}

fn aise_xof_tree_node(m: &[u8], domain: u8, output_len: usize, ext: &[(usize, u64, u64)]) -> (out: Vec<u8>)
    requires
        m@.len() + 2048 <= usize::MAX,
    ensures
        out@ == spec_node_xof(m@, domain, output_len as nat, ext@),
        out@.len() == output_len,
{
    let mut s = sponge::init_with_ext(domain, 0, ext);
    sponge::absorb(&mut s, m, domain);
    sponge::squeeze(&mut s, output_len)
}

/// The leaf digests of an input longer than one leaf.
fn leaf_digests(m: &[u8]) -> (leaves: Vec<Vec<u8>>)
    requires
        m@.len() > LEAF_SIZE,
    ensures
        digests(leaves@) == spec_leaves(m@),
        forall|k: int| 0 <= k < leaves@.len() ==> (#[trigger] leaves@[k])@.len() == 64,
{
    let len = m.len();
    let l = if len % LEAF_SIZE == 0 { len / LEAF_SIZE } else { len / LEAF_SIZE + 1 };
    assert(l == n_pieces(m@.len(), LEAF_SIZE as nat));
    let mut leaves: Vec<Vec<u8>> = Vec::with_capacity(l);
    let mut i: usize = 0;
    while i < l
        invariant
            i <= l,
            len == m@.len(),
            len > LEAF_SIZE,
            l == n_pieces(m@.len(), LEAF_SIZE as nat),
            leaves@.len() == i,
            forall|k: int| 0 <= k < i ==> (#[trigger] leaves@[k])@ == spec_leaves(m@)[k],
            forall|k: int| 0 <= k < i ==> (#[trigger] leaves@[k])@.len() == 64,
        decreases l - i,
    {
        assert(i * LEAF_SIZE < len) by {
            vstd::arithmetic::div_mod::lemma_fundamental_div_mod(len as int, LEAF_SIZE as int);
        }
        let start = i * LEAF_SIZE;
        let end = if start <= len - LEAF_SIZE { start + LEAF_SIZE } else { len };
        let chunk = vstd::slice::slice_subrange(m, start, end);
        assert(chunk@ == piece(m@, LEAF_SIZE as nat, i as int));
        let ext = [(66usize, i as u64, l as u64)];
        assert(ext@ =~= seq![(66usize, i as u64, l as u64)]);
        let d = aise_hash_tree_node(chunk, 0x10, 64, &ext);
        leaves.push(d);
        i = i + 1;
    }
    assert(digests(leaves@) =~= spec_leaves(m@));
    leaves
}

/// The digests of the groups of up to 16 digests of `level`, at the given depth.
fn next_level(level: &Vec<Vec<u8>>, depth: u64) -> (next: Vec<Vec<u8>>)
    requires
        level@.len() >= 1,
        forall|k: int| 0 <= k < level@.len() ==> (#[trigger] level@[k])@.len() == 64,
    ensures
        digests(next@) == spec_next_level(digests(level@), depth as nat),
        next@.len() == n_pieces(level@.len() as nat, FANOUT as nat),
        forall|k: int| 0 <= k < next@.len() ==> (#[trigger] next@[k])@.len() == 64,
{
    let ghost lv = digests(level@);
    let n = level.len();
    let groups = if n % FANOUT == 0 { n / FANOUT } else { n / FANOUT + 1 };
    let mut next: Vec<Vec<u8>> = Vec::with_capacity(groups);
    let mut j: usize = 0;
    while j < groups
        invariant
            j <= groups,
            n == level@.len(),
            n >= 1,
            lv == digests(level@),
            groups == n_pieces(n as nat, FANOUT as nat),
            forall|k: int| 0 <= k < level@.len() ==> (#[trigger] level@[k])@.len() == 64,
            next@.len() == j,
            forall|k: int| 0 <= k < j ==> (#[trigger] next@[k])@ == spec_next_level(lv, depth as nat)[k],
            forall|k: int| 0 <= k < j ==> (#[trigger] next@[k])@.len() == 64,
        decreases groups - j,
    {
        assert(j * FANOUT < n) by {
            vstd::arithmetic::div_mod::lemma_fundamental_div_mod(n as int, FANOUT as int);
        }
        let gstart = j * FANOUT;
        let gend = if n - gstart >= FANOUT { gstart + FANOUT } else { n };
        let ghost grp = piece(lv, FANOUT as nat, j as int);
        assert(grp =~= lv.subrange(gstart as int, gend as int));
        let mut concat: Vec<u8> = Vec::with_capacity((gend - gstart) * 64);
        let mut k: usize = gstart;
        while k < gend
            invariant
                gstart <= k <= gend,
                gend <= n,
                gend - gstart <= FANOUT,
                n == level@.len(),
                lv == digests(level@),
                grp == lv.subrange(gstart as int, gend as int),
                forall|t: int| 0 <= t < level@.len() ==> (#[trigger] level@[t])@.len() == 64,
                concat@ == grp.subrange(0, k - gstart).flatten(),
                concat@.len() == (k - gstart) * 64,
            decreases gend - k,
        {
            let ghost before = concat@;
            concat.extend_from_slice(level[k].as_slice());
            proof {
                assert(lv[k as int] == level@[k as int]@);
                assert(concat@ == before + lv[k as int]);
                grp.subrange(0, k - gstart).lemma_flatten_push(lv[k as int]);
                assert(grp.subrange(0, k + 1 - gstart) =~= grp.subrange(0, k - gstart).push(lv[k as int]));
            }
            k = k + 1;
        }
        assert(grp.subrange(0, gend - gstart) =~= grp);
        let ext = [(66usize, depth, (gend - gstart) as u64)];
        assert(ext@ =~= seq![(66usize, depth as nat as u64, grp.len() as u64)]);
        let d = aise_hash_tree_node(concat.as_slice(), 0x11, 64, &ext);
        next.push(d);
        j = j + 1;
    }
    assert(digests(next@) =~= spec_next_level(lv, depth as nat));
    next
}

/// AISE-TREE of `m`, `output_len` bytes.
pub fn aise_tree(m: &[u8], output_len: usize) -> (out: Vec<u8>)
    ensures
        out@ == spec_tree(m@, output_len as nat),
        out@.len() == output_len,
{
    if m.len() <= LEAF_SIZE {
        let ext = [(66usize, 0u64, 1u64)];
        assert(ext@ =~= seq![(66usize, 0u64, 1u64)]);
        return aise_hash_tree_node(m, 0x10, output_len, &ext);
    }
    let leaves = leaf_digests(m);
    let ghost l = leaves@.len();
    proof {
        assert(digests(leaves@).len() == leaves@.len());
        assert(l == n_pieces(m@.len(), LEAF_SIZE as nat));
        assert(l >= 2) by {
            vstd::arithmetic::div_mod::lemma_fundamental_div_mod(m@.len() as int, LEAF_SIZE as int);
        }
        assert(l * LEAF_SIZE <= m@.len() + LEAF_SIZE) by {
            vstd::arithmetic::div_mod::lemma_fundamental_div_mod(m@.len() as int, LEAF_SIZE as int);
        }
        assert(m@.len() <= 0xFFFF_FFFF_FFFF_FFFF);
        assert(l <= 0x1_0000_0000_0000);
    }
    let mut level = leaves;
    let mut depth: u64 = 1;
    while level.len() > 1
        invariant
            level@.len() >= 1,
            depth + level@.len() <= l + 1,
            l <= 0x1_0000_0000_0000,
            forall|k: int| 0 <= k < level@.len() ==> (#[trigger] level@[k])@.len() == 64,
            spec_reduce(digests(level@), depth as nat) == spec_reduce(spec_leaves(m@), 1),
        decreases level@.len(),
    {
        proof {
            lemma_pieces_shrink(level@.len() as nat);
        }
        let next = next_level(&level, depth);
        level = next;
        depth = depth + 1;
    }
    let root = match level.pop() {
        Some(r) => r,
        None => Vec::new(),
    };
    assert(root@ == spec_reduce(spec_leaves(m@), 1).0);
    assert(depth as nat == spec_reduce(spec_leaves(m@), 1).1);
    if output_len == 64 {
        root
    } else {
        let ext = [(66usize, depth, 1u64)];
        assert(ext@ =~= seq![(66usize, depth as nat as u64, 1u64)]);
        aise_xof_tree_node(root.as_slice(), 0x11, output_len, &ext)
    }
}

} // verus!
