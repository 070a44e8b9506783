//! Square bit maps of connections, and the text that identifies one.

use std::collections::BTreeSet;
use std::collections::HashMap;

use vstd::arithmetic::div_mod::*;
use vstd::arithmetic::mul::*;
use vstd::prelude::*;
use vstd::std_specs::btree::*;
use vstd::std_specs::hash::*;

use crate::constants::MY_PEER_ID;
use crate::proto::{PeerIdVersion, RouteConnBitmap};

verus! {

broadcast use {group_hash_axioms, group_btree_axioms, vstd::laws_cmp::group_laws_cmp};

/// Whether bit `k` of a bit map is set, counting from the least significant bit of the first
/// byte. Bits behind the end are not set.
pub open spec fn bit(bm: Seq<u8>, k: int) -> bool {
    0 <= k && k / 8 < bm.len() && (bm[k / 8] >> ((k % 8) as u8)) & 1u8 == 1u8
}

/// Whether the bit for the pair (`row`, `col`) of an `n` by `n` map is set.
pub open spec fn cell(bm: Seq<u8>, n: int, row: int, col: int) -> bool {
    bit(bm, row * n + col)
}

/// A byte from its eight bits, the least significant first.
pub open spec fn byte_of(
    b0: bool,
    b1: bool,
    b2: bool,
    b3: bool,
    b4: bool,
    b5: bool,
    b6: bool,
    b7: bool,
) -> u8 {
    (if b0 {
        0x01u8
    } else {
        0
    }) | (if b1 {
        0x02u8
    } else {
        0
    }) | (if b2 {
        0x04u8
    } else {
        0
    }) | (if b3 {
        0x08u8
    } else {
        0
    }) | (if b4 {
        0x10u8
    } else {
        0
    }) | (if b5 {
        0x20u8
    } else {
        0
    }) | (if b6 {
        0x40u8
    } else {
        0
    }) | (if b7 {
        0x80u8
    } else {
        0
    })
}

/// Bit `k` of the map of the relation `edge` over `n` places.
pub open spec fn grid_bit(n: int, edge: spec_fn(int, int) -> bool, k: int) -> bool {
    k < n * n && edge(k / n, k % n)
}

/// The bit map of the relation `edge` over `n` places, in as few bytes as hold `n * n` bits.
pub open spec fn grid(n: int, edge: spec_fn(int, int) -> bool) -> Seq<u8> {
    Seq::new(
        ((n * n + 7) / 8) as nat,
        |i: int|
            byte_of(
                grid_bit(n, edge, 8 * i),
                grid_bit(n, edge, 8 * i + 1),
                grid_bit(n, edge, 8 * i + 2),
                grid_bit(n, edge, 8 * i + 3),
                grid_bit(n, edge, 8 * i + 4),
                grid_bit(n, edge, 8 * i + 5),
                grid_bit(n, edge, 8 * i + 6),
                grid_bit(n, edge, 8 * i + 7),
            ),
    )
}

proof fn byte_of_bits(
    x: u8,
    b0: bool,
    b1: bool,
    b2: bool,
    b3: bool,
    b4: bool,
    b5: bool,
    b6: bool,
    b7: bool,
)
    requires
        b0 == ((x >> 0u8) & 1u8 == 1u8),
        b1 == ((x >> 1u8) & 1u8 == 1u8),
        b2 == ((x >> 2u8) & 1u8 == 1u8),
        b3 == ((x >> 3u8) & 1u8 == 1u8),
        b4 == ((x >> 4u8) & 1u8 == 1u8),
        b5 == ((x >> 5u8) & 1u8 == 1u8),
        b6 == ((x >> 6u8) & 1u8 == 1u8),
        b7 == ((x >> 7u8) & 1u8 == 1u8),
    ensures
        x == byte_of(b0, b1, b2, b3, b4, b5, b6, b7),
{
    assert(x == byte_of(
        (x >> 0u8) & 1u8 == 1u8,
        (x >> 1u8) & 1u8 == 1u8,
        (x >> 2u8) & 1u8 == 1u8,
        (x >> 3u8) & 1u8 == 1u8,
        (x >> 4u8) & 1u8 == 1u8,
        (x >> 5u8) & 1u8 == 1u8,
        (x >> 6u8) & 1u8 == 1u8,
        (x >> 7u8) & 1u8 == 1u8,
    )) by (bit_vector);
}

proof fn bits_of_byte(
    b0: bool,
    b1: bool,
    b2: bool,
    b3: bool,
    b4: bool,
    b5: bool,
    b6: bool,
    b7: bool,
)
    ensures
        ({
            let x = byte_of(b0, b1, b2, b3, b4, b5, b6, b7);
            &&& b0 == ((x >> 0u8) & 1u8 == 1u8)
            &&& b1 == ((x >> 1u8) & 1u8 == 1u8)
            &&& b2 == ((x >> 2u8) & 1u8 == 1u8)
            &&& b3 == ((x >> 3u8) & 1u8 == 1u8)
            &&& b4 == ((x >> 4u8) & 1u8 == 1u8)
            &&& b5 == ((x >> 5u8) & 1u8 == 1u8)
            &&& b6 == ((x >> 6u8) & 1u8 == 1u8)
            &&& b7 == ((x >> 7u8) & 1u8 == 1u8)
        }),
{
    let x = byte_of(b0, b1, b2, b3, b4, b5, b6, b7);
    assert(b0 == ((x >> 0u8) & 1u8 == 1u8) && b1 == ((x >> 1u8) & 1u8 == 1u8) && b2 == ((x >> 2u8)
        & 1u8 == 1u8) && b3 == ((x >> 3u8) & 1u8 == 1u8) && b4 == ((x >> 4u8) & 1u8 == 1u8) && b5
        == ((x >> 5u8) & 1u8 == 1u8) && b6 == ((x >> 6u8) & 1u8 == 1u8) && b7 == ((x >> 7u8) & 1u8
        == 1u8)) by (bit_vector)
        requires
            x == byte_of(b0, b1, b2, b3, b4, b5, b6, b7),
    ;
}

/// The bits of `grid` are those of the relation.
pub proof fn grid_bits(n: int, edge: spec_fn(int, int) -> bool, k: int)
    requires
        0 <= k,
        0 <= n,
    ensures
        bit(grid(n, edge), k) == grid_bit(n, edge, k),
{
    let i = k / 8;
    assert(n * n >= 0) by (nonlinear_arith)
        requires
            0 <= n,
    ;
    if i < grid(n, edge).len() {
        bits_of_byte(
            grid_bit(n, edge, 8 * i),
            grid_bit(n, edge, 8 * i + 1),
            grid_bit(n, edge, 8 * i + 2),
            grid_bit(n, edge, 8 * i + 3),
            grid_bit(n, edge, 8 * i + 4),
            grid_bit(n, edge, 8 * i + 5),
            grid_bit(n, edge, 8 * i + 6),
            grid_bit(n, edge, 8 * i + 7),
        );
        let j = k % 8;
        assert(k == 8 * i + j);
        assert(j == 0 || j == 1 || j == 2 || j == 3 || j == 4 || j == 5 || j == 6 || j == 7);
    }
}

/// The place of a pair in a map determines the pair.
proof fn place_of_pair(n: int, row: int, col: int)
    requires
        0 <= row < n,
        0 <= col < n,
    ensures
        0 <= row * n + col < n * n,
        (row * n + col) / n == row,
        (row * n + col) % n == col,
{
    lemma_fundamental_div_mod_converse(row * n + col, n, row, col);
    assert(row * n + col < n * n) by (nonlinear_arith)
        requires
            0 <= row < n,
            0 <= col < n,
    ;
    assert(0 <= row * n) by (nonlinear_arith)
        requires
            0 <= row,
            0 <= n,
    ;
}

/// The pair at a place of a map.
proof fn pair_at_place(n: int, k: int)
    requires
        0 <= k < n * n,
        0 <= n,
    ensures
        0 <= k / n < n,
        0 <= k % n < n,
        (k / n) * n + k % n == k,
{
    if n == 0 {
        assert(n * n == 0) by (nonlinear_arith)
            requires
                n == 0,
        ;
    }
    lemma_fundamental_div_mod(k, n);
    lemma_mod_bound(k, n);
    lemma_div_pos_is_pos(k, n);
    lemma_mul_is_commutative(n, k / n);
    assert(k / n < n) by (nonlinear_arith)
        requires
            k < n * n,
            0 < n,
            k == n * (k / n) + k % n,
            0 <= k % n,
    ;
}

/// The pair (`row`, `col`) is marked in the map of a relation exactly when the relation holds.
pub proof fn grid_cells(n: int, edge: spec_fn(int, int) -> bool, row: int, col: int)
    requires
        0 <= row < n,
        0 <= col < n,
    ensures
        cell(grid(n, edge), n, row, col) == edge(row, col),
{
    place_of_pair(n, row, col);
    grid_bits(n, edge, row * n + col);
}

/// A map of the right size whose pairs are marked as the relation says, with nothing marked
/// behind them, is the map of the relation.
proof fn marked_map_is_grid(bm: Seq<u8>, n: int, edge: spec_fn(int, int) -> bool)
    requires
        0 <= n,
        bm.len() == (n * n + 7) / 8,
        forall|row: int, col: int|
            0 <= row < n && 0 <= col < n ==> #[trigger] cell(bm, n, row, col) == edge(row, col),
        forall|k: int| n * n <= k ==> !#[trigger] bit(bm, k),
    ensures
        bm == grid(n, edge),
{
    assert forall|k: int| 0 <= k < 8 * bm.len() implies #[trigger] bit(bm, k) == grid_bit(
        n,
        edge,
        k,
    ) by {
        if k < n * n {
            pair_at_place(n, k);
            assert(cell(bm, n, k / n, k % n) == edge(k / n, k % n));
        }
    }
    assert forall|i: int| 0 <= i < bm.len() implies bm[i] == grid(n, edge)[i] by {
        assert(bit(bm, 8 * i + 0) == grid_bit(n, edge, 8 * i));
        assert(bit(bm, 8 * i + 1) == grid_bit(n, edge, 8 * i + 1));
        assert(bit(bm, 8 * i + 2) == grid_bit(n, edge, 8 * i + 2));
        assert(bit(bm, 8 * i + 3) == grid_bit(n, edge, 8 * i + 3));
        assert(bit(bm, 8 * i + 4) == grid_bit(n, edge, 8 * i + 4));
        assert(bit(bm, 8 * i + 5) == grid_bit(n, edge, 8 * i + 5));
        assert(bit(bm, 8 * i + 6) == grid_bit(n, edge, 8 * i + 6));
        assert(bit(bm, 8 * i + 7) == grid_bit(n, edge, 8 * i + 7));
        byte_of_bits(
            bm[i],
            grid_bit(n, edge, 8 * i),
            grid_bit(n, edge, 8 * i + 1),
            grid_bit(n, edge, 8 * i + 2),
            grid_bit(n, edge, 8 * i + 3),
            grid_bit(n, edge, 8 * i + 4),
            grid_bit(n, edge, 8 * i + 5),
            grid_bit(n, edge, 8 * i + 6),
            grid_bit(n, edge, 8 * i + 7),
        );
    }
    assert(bm =~= grid(n, edge));
}

/// Marks the pair (`row`, `col`).
fn set_cell(bm: &mut Vec<u8>, n: usize, row: usize, col: usize)
    requires
        row < n,
        col < n,
        n * n + 7 <= usize::MAX,
        old(bm)@.len() == (n * n + 7) / 8,
    ensures
        final(bm)@.len() == old(bm)@.len(),
        forall|r: int, c: int|
            0 <= r < n && 0 <= c < n ==> #[trigger] cell(final(bm)@, n as int, r, c) == (cell(
                old(bm)@,
                n as int,
                r,
                c,
            ) || (r == row && c == col)),
        forall|k: int| n * n <= k ==> #[trigger] bit(final(bm)@, k) == bit(old(bm)@, k),
{
    proof {
        place_of_pair(n as int, row as int, col as int);
        assert(row * n <= n * n) by (nonlinear_arith)
            requires
                row < n,
        ;
    }
    let place: usize = row * n + col;
    let i: usize = place / 8;
    let j: u8 = (place % 8) as u8;
    let byte = bm[i];
    bm.set(i, byte | (1u8 << j));
    proof {
        let old_bm = old(bm)@;
        assert forall|k: int| 0 <= k implies #[trigger] bit(bm@, k) == (bit(old_bm, k) || k
            == place) by {
            if k / 8 == i {
                let jk = (k % 8) as u8;
                assert(((byte | (1u8 << j)) >> jk) & 1u8 == 1u8 <==> ((byte >> jk) & 1u8 == 1u8
                    || jk == j)) by (bit_vector)
                    requires
                        j < 8u8,
                        jk < 8u8,
                ;
            }
        }
        assert forall|r: int, c: int| 0 <= r < n && 0 <= c < n implies #[trigger] cell(
            bm@,
            n as int,
            r,
            c,
        ) == (cell(old_bm, n as int, r, c) || (r == row && c == col)) by {
            place_of_pair(n as int, r, c);
            assert(bit(bm@, r * n + c) == (bit(old_bm, r * n + c) || r * n + c == place));
        }
        assert forall|k: int| n * n <= k implies #[trigger] bit(bm@, k) == bit(old_bm, k) by {
            assert(0 <= k) by (nonlinear_arith)
                requires
                    n * n <= k,
                    0 <= n,
            ;
        }
    }
}

/// Whether `links` records that `a` reported a connection to `b`.
pub open spec fn linked(links: Map<u32, Set<u32>>, a: u32, b: u32) -> bool {
    links.contains_key(a) && links[a].contains(b)
}

/// Whether the peers at the places `row` and `col` of `ids` count as connected. Every peer is
/// connected to itself and to the server, and to each peer when one of the two reported so. Where
/// the server itself is not among the peers, all are connected.
pub open spec fn edge(ids: Seq<u32>, links: Map<u32, Set<u32>>, row: int, col: int) -> bool {
    ||| !ids.contains(MY_PEER_ID)
    ||| row == col
    ||| ids[row] == MY_PEER_ID
    ||| ids[col] == MY_PEER_ID
    ||| linked(links, ids[row], ids[col])
    ||| linked(links, ids[col], ids[row])
}

/// The bit map of the connections among `ids`.
pub open spec fn connection_map(ids: Seq<u32>, links: Map<u32, Set<u32>>) -> Seq<u8> {
    grid(ids.len() as int, |row: int, col: int| edge(ids, links, row, col))
}

/// Reported connections over mathematical sets.
pub open spec fn links_of(links: Map<u32, BTreeSet<u32>>) -> Map<u32, Set<u32>> {
    links.map_values(|s: BTreeSet<u32>| s@)
}

fn position_of(ids: &Vec<u32>, id: u32) -> (r: Option<usize>)
    ensures
        match r {
            Some(i) => i < ids@.len() && ids@[i as int] == id,
            None => !ids@.contains(id),
        },
{
    let mut i: usize = 0;
    while i < ids.len()
        invariant
            i <= ids@.len(),
            forall|j: int| 0 <= j < i ==> ids@[j] != id,
        decreases ids@.len() - i,
    {
        if ids[i] == id {
            return Some(i);
        }
        i = i + 1;
    }
    None
}

/// Builds the bit map of the connections among `ids`.
pub(crate) fn build_connection_map(ids: &Vec<u32>, links: &HashMap<u32, BTreeSet<u32>>) -> (r: Vec<
    u8,
>)
    requires
        ids@.no_duplicates(),
        ids@.len() * ids@.len() + 7 <= usize::MAX,
    ensures
        r@ == connection_map(ids@, links_of(links@)),
{
    let n: usize = ids.len();
    assert(n <= n * n + 7) by (nonlinear_arith);
    let size: usize = (n * n + 7) / 8;
    let mut bm: Vec<u8> = vec![0; size];
    let ghost all = links_of(links@);
    proof {
        assert forall|k: int| !#[trigger] bit(bm@, k) by {
            if 0 <= k && k / 8 < bm@.len() {
                let j = (k % 8) as u8;
                assert((0u8 >> j) & 1u8 == 0u8) by (bit_vector);
            }
        }
    }
    match position_of(ids, MY_PEER_ID) {
        Some(server) => {
            let mut i: usize = 0;
            while i < n
                invariant
                    i <= n,
                    n == ids@.len(),
                    server < n,
                    n * n + 7 <= usize::MAX,
                    bm@.len() == (n * n + 7) / 8,
                    forall|r: int, c: int|
                        0 <= r < n && 0 <= c < n ==> #[trigger] cell(bm@, n as int, r, c) == ((r == c
                            && r < i) || (r == server && c < i) || (c == server && r < i)),
                    forall|k: int| n * n <= k ==> !#[trigger] bit(bm@, k),
                decreases n - i,
            {
                set_cell(&mut bm, n, i, i);
                set_cell(&mut bm, n, server, i);
                set_cell(&mut bm, n, i, server);
                i = i + 1;
            }
            let mut i: usize = 0;
            while i < n
                invariant
                    i <= n,
                    n == ids@.len(),
                    server < n,
                    n * n + 7 <= usize::MAX,
                    all == links_of(links@),
                    bm@.len() == (n * n + 7) / 8,
                    forall|r: int, c: int|
                        0 <= r < n && 0 <= c < n ==> #[trigger] cell(bm@, n as int, r, c) == (r == c
                            || r == server || c == server || (r < i && linked(
                            all,
                            ids@[r],
                            ids@[c],
                        )) || (c < i && linked(all, ids@[c], ids@[r]))),
                    forall|k: int| n * n <= k ==> !#[trigger] bit(bm@, k),
                decreases n - i,
            {
                match links.get(&ids[i]) {
                    Some(peers) => {
                        assert(all[ids@[i as int]] == peers@);
                        let mut j: usize = 0;
                        while j < n
                            invariant
                                j <= n,
                                i < n,
                                n == ids@.len(),
                                server < n,
                                n * n + 7 <= usize::MAX,
                                all.contains_key(ids@[i as int]),
                                all[ids@[i as int]] == peers@,
                                bm@.len() == (n * n + 7) / 8,
                                forall|r: int, c: int|
                                    0 <= r < n && 0 <= c < n ==> #[trigger] cell(
                                        bm@,
                                        n as int,
                                        r,
                                        c,
                                    ) == (r == c || r == server || c == server || ((r < i || (r == i
                                        && c < j)) && linked(all, ids@[r], ids@[c])) || ((c < i || (
                                    c == i && r < j)) && linked(all, ids@[c], ids@[r]))),
                                forall|k: int| n * n <= k ==> !#[trigger] bit(bm@, k),
                            decreases n - j,
                        {
                            if peers.contains(&ids[j]) {
                                set_cell(&mut bm, n, i, j);
                                set_cell(&mut bm, n, j, i);
                            }
                            j = j + 1;
                        }
                    },
                    None => {},
                }
                i = i + 1;
            }
        },
        None => {
            let mut i: usize = 0;
            while i < n
                invariant
                    i <= n,
                    n == ids@.len(),
                    n * n + 7 <= usize::MAX,
                    bm@.len() == (n * n + 7) / 8,
                    forall|r: int, c: int|
                        0 <= r < n && 0 <= c < n ==> #[trigger] cell(bm@, n as int, r, c) == (r < i),
                    forall|k: int| n * n <= k ==> !#[trigger] bit(bm@, k),
                decreases n - i,
            {
                let mut j: usize = 0;
                while j < n
                    invariant
                        i < n,
                        j <= n,
                        n == ids@.len(),
                        n * n + 7 <= usize::MAX,
                        bm@.len() == (n * n + 7) / 8,
                        forall|r: int, c: int|
                            0 <= r < n && 0 <= c < n ==> #[trigger] cell(bm@, n as int, r, c) == (r
                                < i || (r == i && c < j)),
                        forall|k: int| n * n <= k ==> !#[trigger] bit(bm@, k),
                    decreases n - j,
                {
                    set_cell(&mut bm, n, i, j);
                    j = j + 1;
                }
                i = i + 1;
            }
        },
    }
    proof {
        let relation = |row: int, col: int| edge(ids@, all, row, col);
        assert forall|r: int, c: int| 0 <= r < n && 0 <= c < n implies #[trigger] cell(
            bm@,
            n as int,
            r,
            c,
        ) == relation(r, c) by {}
        marked_map_is_grid(bm@, n as int, relation);
    }
    bm
}

/// The peers that row `row` of a reported bit map marks.
pub open spec fn row_peers(
    peer_ids: Seq<PeerIdVersion>,
    bitmap: Seq<u8>,
    row: int,
) -> Set<u32> {
    Set::new(
        |p: u32|
            exists|col: int|
                0 <= col < peer_ids.len() && (#[trigger] peer_ids[col]).peer_id == p && cell(
                    bitmap,
                    peer_ids.len() as int,
                    row,
                    col,
                ),
    )
}

/// Parse a RouteConnBitmap and extract the set of peer IDs connected to the peer at `peer_idx`.
/// A bit map that is too short for its peers counts as filled up with zeros.
pub fn get_connected_peers_from_bitmap(bitmap: &RouteConnBitmap, peer_idx: usize) -> (r: BTreeSet<
    u32,
>)
    ensures
        r@ == row_peers(bitmap.peer_ids@, bitmap.bitmap@, peer_idx as int),
{
    let n: usize = bitmap.peer_ids.len();
    let mut connected: BTreeSet<u32> = BTreeSet::new();
    let mut idx: usize = 0;
    while idx < n
        invariant
            idx <= n,
            n == bitmap.peer_ids@.len(),
            forall|p: u32| #[trigger]
                connected@.contains(p) <==> exists|col: int|
                    0 <= col < idx && (#[trigger] bitmap.peer_ids@[col]).peer_id == p && cell(
                        bitmap.bitmap@,
                        n as int,
                        peer_idx as int,
                        col,
                    ),
        decreases n - idx,
    {
        assert(0 <= peer_idx * n + idx < 0x1_0000_0000_0000_0000 * 0x1_0000_0000_0000_0000)
            by (nonlinear_arith)
            requires
                peer_idx < 0x1_0000_0000_0000_0000,
                idx < n,
                n < 0x1_0000_0000_0000_0000,
        ;
        assert(0 <= peer_idx * n) by (nonlinear_arith);
        let bit_idx: u128 = (peer_idx as u128) * (n as u128) + idx as u128;
        let byte_idx: u128 = bit_idx / 8;
        let bit_offset: u8 = (bit_idx % 8) as u8;
        let ghost before = connected@;
        if byte_idx < bitmap.bitmap.len() as u128 && (bitmap.bitmap[byte_idx as usize] >> bit_offset)
            & 1 == 1 {
            connected.insert(bitmap.peer_ids[idx].peer_id);
        }
        assert(cell(bitmap.bitmap@, n as int, peer_idx as int, idx as int) == bit(
            bitmap.bitmap@,
            bit_idx as int,
        ));
        idx = idx + 1;
        assert forall|p: u32| #[trigger]
            connected@.contains(p) <==> exists|col: int|
                0 <= col < idx && (#[trigger] bitmap.peer_ids@[col]).peer_id == p && cell(
                    bitmap.bitmap@,
                    n as int,
                    peer_idx as int,
                    col,
                ) by {
            let last = idx - 1;
            if before.contains(p) {
                let col = choose|col: int|
                    0 <= col < last && (#[trigger] bitmap.peer_ids@[col]).peer_id == p && cell(
                        bitmap.bitmap@,
                        n as int,
                        peer_idx as int,
                        col,
                    );
                assert(0 <= col < idx && bitmap.peer_ids@[col].peer_id == p);
            }
            if connected@.contains(p) && !before.contains(p) {
                assert(bitmap.peer_ids@[last].peer_id == p);
            }
        }
    }
    assert(connected@ =~= row_peers(bitmap.peer_ids@, bitmap.bitmap@, peer_idx as int));
    connected
}

/// Reading a row of the bit map that was built for `ids` gives exactly the peers that are
/// connected to the peer of that row.
pub proof fn built_map_reads_back(
    ids: Seq<u32>,
    versions: Seq<PeerIdVersion>,
    links: Map<u32, Set<u32>>,
    row: int,
    p: u32,
)
    requires
        0 <= row < ids.len(),
        versions.len() == ids.len(),
        forall|i: int| 0 <= i < ids.len() ==> (#[trigger] versions[i]).peer_id == ids[i],
    ensures
        row_peers(versions, connection_map(ids, links), row).contains(p) <==> exists|col: int|
            0 <= col < ids.len() && #[trigger] ids[col] == p && edge(ids, links, row, col),
{
    let n = ids.len() as int;
    let relation = |r: int, c: int| edge(ids, links, r, c);
    let bm = connection_map(ids, links);
    assert forall|col: int| 0 <= col < n implies #[trigger] cell(bm, n, row, col) == edge(
        ids,
        links,
        row,
        col,
    ) by {
        grid_cells(n, relation, row, col);
    }
    if row_peers(versions, bm, row).contains(p) {
        let col = choose|col: int|
            0 <= col < versions.len() && (#[trigger] versions[col]).peer_id == p && cell(
                bm,
                versions.len() as int,
                row,
                col,
            );
        assert(ids[col] == p && edge(ids, links, row, col));
    }
    if exists|col: int| 0 <= col < ids.len() && #[trigger] ids[col] == p && edge(ids, links, row, col) {
        let col = choose|col: int|
            0 <= col < ids.len() && #[trigger] ids[col] == p && edge(ids, links, row, col);
        assert(versions[col].peer_id == p && cell(bm, n, row, col));
    }
}

/// In the bit map that is built for `ids`, connections go both ways, every peer is connected to
/// itself, and a peer is connected to the server and the server to it.
pub proof fn built_map_is_symmetric(
    ids: Seq<u32>,
    links: Map<u32, Set<u32>>,
    row: int,
    col: int,
)
    requires
        0 <= row < ids.len(),
        0 <= col < ids.len(),
    ensures
        ({
            let n = ids.len() as int;
            let bm = connection_map(ids, links);
            &&& cell(bm, n, row, col) == cell(bm, n, col, row)
            &&& cell(bm, n, row, row)
            &&& ids[row] == MY_PEER_ID ==> cell(bm, n, row, col)
        }),
{
    let n = ids.len() as int;
    let relation = |r: int, c: int| edge(ids, links, r, c);
    grid_cells(n, relation, row, col);
    grid_cells(n, relation, col, row);
    grid_cells(n, relation, row, row);
}

// ---- Signatures ----

/// One peer of a signature: id, colon, version.
pub open spec fn peer_text(p: PeerIdVersion) -> Seq<char> {
    crate::text::decimal(p.peer_id as nat).push(':') + crate::text::decimal(p.version as nat)
}

/// The peers of a signature, with commas between them.
pub open spec fn peers_text(ps: Seq<PeerIdVersion>) -> Seq<char>
    decreases ps.len(),
{
    if ps.len() == 0 {
        Seq::empty()
    } else if ps.len() == 1 {
        peer_text(ps[0])
    } else {
        peers_text(ps.drop_last()).push(',') + peer_text(ps.last())
    }
}

/// The text that identifies a bit map: the peers with their versions, a bar, and the bits in
/// hexadecimal.
pub open spec fn signature(ps: Seq<PeerIdVersion>, bitmap: Seq<u8>) -> Seq<char> {
    peers_text(ps).push('|') + crate::text::hex_lower(bitmap)
}

fn peer_signature(p: &PeerIdVersion) -> (r: String)
    ensures
        r@ == peer_text(*p),
{
    proof {
        reveal_strlit(":");
    }
    let mut r = crate::text::decimal_text(p.peer_id as u64);
    r.append(":");
    r.append(crate::text::decimal_text(p.version as u64).as_str());
    assert(r@ =~= peer_text(*p));
    r
}

/// Writes the text that identifies a bit map.
pub(crate) fn signature_text(ps: &Vec<PeerIdVersion>, bitmap: &Vec<u8>) -> (r: String)
    ensures
        r@ == signature(ps@, bitmap@),
{
    proof {
        reveal_strlit(",");
        reveal_strlit("|");
    }
    let mut r = String::new();
    let mut i: usize = 0;
    while i < ps.len()
        invariant
            ","@ =~= seq![','],
            i <= ps@.len(),
            r@ == peers_text(ps@.take(i as int)),
        decreases ps@.len() - i,
    {
        let ghost before = r@;
        if i > 0 {
            r.append(",");
        }
        r.append(peer_signature(&ps[i]).as_str());
        i = i + 1;
        proof {
            let now = ps@.take(i as int);
            assert(now.drop_last() =~= ps@.take(i - 1));
            assert(r@ =~= peers_text(now));
        }
    }
    assert(ps@.take(ps@.len() as int) =~= ps@);
    r.append("|");
    r.append(crate::text::hex_encode(bitmap.as_slice()).as_str());
    assert(r@ =~= signature(ps@, bitmap@));
    r
}

/// Whether a text holds digits and colons alone.
spec fn is_peer_text(t: Seq<char>) -> bool {
    forall|i: int| 0 <= i < t.len() ==> crate::text::is_digit(#[trigger] t[i]) || t[i] == ':'
}

proof fn peer_text_chars(p: PeerIdVersion)
    ensures
        is_peer_text(peer_text(p)),
        peer_text(p).len() > 0,
        !crate::text::decimal(p.version as nat).contains(':'),
{
    crate::text::decimal_is_a_number(p.peer_id as nat);
    crate::text::decimal_is_a_number(p.version as nat);
    let id = crate::text::decimal(p.peer_id as nat);
    let version = crate::text::decimal(p.version as nat);
    let t = peer_text(p);
    assert forall|i: int| 0 <= i < t.len() implies crate::text::is_digit(#[trigger] t[i]) || t[i]
        == ':' by {
        if i < id.len() {
            assert(t[i] == id[i]);
        } else if i > id.len() {
            assert(t[i] == version[i - id.len() - 1]);
        }
    }
}

proof fn peer_text_is_injective(p: PeerIdVersion, q: PeerIdVersion)
    requires
        peer_text(p) == peer_text(q),
    ensures
        p == q,
{
    peer_text_chars(p);
    peer_text_chars(q);
    crate::text::last_mark_splits(
        crate::text::decimal(p.peer_id as nat),
        crate::text::decimal(p.version as nat),
        crate::text::decimal(q.peer_id as nat),
        crate::text::decimal(q.version as nat),
        ':',
    );
    crate::text::decimal_is_a_number(p.peer_id as nat);
    crate::text::decimal_is_a_number(q.peer_id as nat);
    crate::text::decimal_is_a_number(p.version as nat);
    crate::text::decimal_is_a_number(q.version as nat);
}

proof fn peers_text_chars(ps: Seq<PeerIdVersion>)
    ensures
        !peers_text(ps).contains('|'),
        ps.len() >= 2 ==> peers_text(ps).contains(','),
        (peers_text(ps).len() == 0) == (ps.len() == 0),
    decreases ps.len(),
{
    if ps.len() == 1 {
        peer_text_chars(ps[0]);
    } else if ps.len() >= 2 {
        peers_text_chars(ps.drop_last());
        peer_text_chars(ps.last());
        let front = peers_text(ps.drop_last());
        let back = peer_text(ps.last());
        let t = peers_text(ps);
        assert(t[front.len() as int] == ',');
        assert forall|i: int| 0 <= i < t.len() implies t[i] != '|' by {
            if i < front.len() {
                assert(t[i] == front[i]);
                assert(front.contains(front[i]));
            } else if i > front.len() {
                assert(t[i] == back[i - front.len() - 1]);
            }
        }
    }
}

proof fn peers_text_is_injective(ps: Seq<PeerIdVersion>, qs: Seq<PeerIdVersion>)
    requires
        peers_text(ps) == peers_text(qs),
    ensures
        ps == qs,
    decreases ps.len(),
{
    peers_text_chars(ps);
    peers_text_chars(qs);
    if ps.len() == 0 {
        assert(ps =~= qs);
    } else {
        peer_text_chars(ps.last());
        peer_text_chars(qs.last());
        assert(!peer_text(ps.last()).contains(','));
        assert(!peer_text(qs.last()).contains(','));
        if ps.len() == 1 || qs.len() == 1 {
            assert(ps.len() == 1 && qs.len() == 1);
            peer_text_is_injective(ps[0], qs[0]);
            assert(ps =~= qs);
        } else {
            crate::text::last_mark_splits(
                peers_text(ps.drop_last()),
                peer_text(ps.last()),
                peers_text(qs.drop_last()),
                peer_text(qs.last()),
                ',',
            );
            peers_text_is_injective(ps.drop_last(), qs.drop_last());
            peer_text_is_injective(ps.last(), qs.last());
            assert(ps =~= ps.drop_last().push(ps.last()));
            assert(qs =~= qs.drop_last().push(qs.last()));
        }
    }
}

/// Two bit maps have the same signature only if they have the same peers, with the same versions,
/// and the same bits.
pub proof fn signature_tells_maps_apart(
    ps: Seq<PeerIdVersion>,
    a: Seq<u8>,
    qs: Seq<PeerIdVersion>,
    b: Seq<u8>,
)
    requires
        signature(ps, a) == signature(qs, b),
    ensures
        ps == qs,
        a == b,
{
    assert forall|t: Seq<u8>| !(#[trigger] crate::text::hex_lower(t)).contains('|') by {
        let h = crate::text::hex_lower(t);
        assert forall|i: int| 0 <= i < h.len() implies h[i] != '|' by {}
    }
    crate::text::last_mark_splits(
        peers_text(ps),
        crate::text::hex_lower(a),
        peers_text(qs),
        crate::text::hex_lower(b),
        '|',
    );
    peers_text_is_injective(ps, qs);
    crate::text::hex_is_injective(a, b);
}

} // verus!
