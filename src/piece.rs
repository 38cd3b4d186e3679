use vstd::prelude::*;

use vstd::arithmetic::power2::{lemma_pow2_unfold, pow2};

use crate::{BOARD_SIZE, N_PIECES, N_PROPERTIES};

verus! {

/// A piece: one boolean flag per attribute.
pub type Piece = [bool; N_PROPERTIES];

/// Every piece of `line` has the same value as the first one at attribute `k`.
pub open spec fn shares_attribute(line: Seq<Piece>, k: int) -> bool {
    forall|i: int| 0 <= i < line.len() ==> #[trigger] line[i][k] == line[0][k]
}

/// Some attribute index is uniform across `line`.
pub open spec fn is_match(line: Seq<Piece>) -> bool {
    exists|k: int| 0 <= k < N_PROPERTIES && #[trigger] shares_attribute(line, k)
}

/// Whether the pieces of a full line agree on at least one attribute.
pub fn check_match(pieces: Vec<Piece>) -> (r: bool)
    requires
        pieces.len() == BOARD_SIZE,
    ensures
        r == is_match(pieces@),
{
    let mut property: usize = 0;
    while property < N_PROPERTIES
        invariant
            pieces.len() == BOARD_SIZE,
            property <= N_PROPERTIES,
            forall|k: int| 0 <= k < property ==> !shares_attribute(pieces@, k),
        decreases N_PROPERTIES - property,
    {
        let first_property = pieces[0][property];
        let mut all_same = true;
        let mut i: usize = 1;
        while i < pieces.len()
            invariant
                pieces.len() == BOARD_SIZE,
                property < N_PROPERTIES,
                first_property == pieces@[0][property as int],
                1 <= i <= pieces.len(),
                all_same <==> forall|j: int| 0 <= j < i ==> #[trigger] pieces@[j][property as int]
                    == first_property,
            decreases pieces.len() - i,
        {
            if pieces[i][property] != first_property {
                all_same = false;
            }
            i += 1;
        }
        if all_same {
            assert(shares_attribute(pieces@, property as int));
            return true;
        }
        assert(!shares_attribute(pieces@, property as int));
        property += 1;
    }
    false
}

/// The attribute flags of piece number `i` among `n`-attribute pieces: the binary
/// digits of `i`, most significant first.
pub open spec fn piece_bits(i: nat, n: nat) -> Seq<bool>
    decreases n,
{
    if n == 0 {
        Seq::empty()
    } else {
        piece_bits(i / 2, (n - 1) as nat).push(i % 2 == 1)
    }
}

/// The number read back from the flags of piece number `i` is `i`.
pub proof fn lemma_piece_bits_id(i: nat)
    requires
        i < N_PIECES,
    ensures
        piece_bits(i, N_PROPERTIES as nat).len() == N_PROPERTIES,
        ({
            let b = piece_bits(i, N_PROPERTIES as nat);
            (if b[0] { 8nat } else { 0nat }) + (if b[1] { 4nat } else { 0nat }) + (if b[2] { 2nat } else {
                0nat
            }) + (if b[3] { 1nat } else { 0nat }) == i
        }),
{
    reveal_with_fuel(piece_bits, 5);
}

/// Every piece with `size` attributes, piece `i` holding the binary digits of `i`.
pub fn all_possible_pieces(size: usize) -> (r: Vec<Vec<bool>>)
    ensures
        r@.len() == pow2(size as nat),
        forall|i: int| 0 <= i < r@.len() ==> (#[trigger] r@[i])@ == piece_bits(i as nat, size as nat),
    decreases size,
{
    if size == 0 {
        proof {
            vstd::arithmetic::power2::lemma2_to64();
        }
        let r: Vec<Vec<bool>> = vec![Vec::new()];
        assert(r@[0]@ =~= piece_bits(0, 0));
        return r;
    }
    let smaller_pieces = all_possible_pieces(size - 1);
    proof {
        lemma_pow2_unfold(size as nat);
    }
    let mut pieces: Vec<Vec<bool>> = Vec::new();
    let mut j: usize = 0;
    while j < smaller_pieces.len()
        invariant
            size > 0,
            j <= smaller_pieces@.len(),
            smaller_pieces@.len() == pow2((size - 1) as nat),
            forall|i: int|
                0 <= i < smaller_pieces@.len() ==> (#[trigger] smaller_pieces@[i])@ == piece_bits(
                    i as nat,
                    (size - 1) as nat,
                ),
            pieces@.len() == 2 * j,
            forall|i: int| 0 <= i < pieces@.len() ==> (#[trigger] pieces@[i])@ == piece_bits(i as nat, size as nat),
        decreases smaller_pieces.len() - j,
    {
        let piece = &smaller_pieces[j];
        let mut with_false = copy_flags(piece);
        with_false.push(false);
        let mut with_true = copy_flags(piece);
        with_true.push(true);
        proof {
            let k = 2 * j as int;
            assert(k as nat / 2 == j as nat);
            assert((k + 1) as nat / 2 == j as nat);
            assert(with_false@ =~= piece_bits(k as nat, size as nat));
            assert(with_true@ =~= piece_bits((k + 1) as nat, size as nat));
        }
        pieces.push(with_false);
        pieces.push(with_true);
        j += 1;
    }
    pieces
}

/// A fresh copy of a flag vector.
pub(crate) fn copy_flags(flags: &Vec<bool>) -> (r: Vec<bool>)
    ensures
        r@ == flags@,
{
    let mut r: Vec<bool> = Vec::new();
    let mut i: usize = 0;
    while i < flags.len()
        invariant
            i <= flags.len(),
            r@ == flags@.take(i as int),
        decreases flags.len() - i,
    {
        r.push(flags[i]);
        i += 1;
        assert(r@ =~= flags@.take(i as int));
    }
    assert(flags@.take(flags@.len() as int) =~= flags@);
    r
}

/// The number of a piece: its flags read as binary digits, most significant first.
pub open spec fn piece_id(p: Piece) -> nat {
    (if p[0] { 8nat } else { 0nat }) + (if p[1] { 4nat } else { 0nat }) + (if p[2] { 2nat } else {
        0nat
    }) + (if p[3] { 1nat } else { 0nat })
}

/// Pieces with the same number are the same piece, and every number is below N_PIECES.
pub proof fn lemma_piece_id(p: Piece, q: Piece)
    ensures
        piece_id(p) < N_PIECES,
        piece_id(p) == piece_id(q) ==> p == q,
{
    if piece_id(p) == piece_id(q) {
        assert(p =~= q);
    }
}

/// The piece with number `i`.
pub open spec fn piece_of(i: nat) -> Piece {
    [i / 8 % 2 == 1, i / 4 % 2 == 1, i / 2 % 2 == 1, i % 2 == 1]
}

/// Numbering is a bijection between pieces and the numbers below N_PIECES.
pub proof fn lemma_piece_of(p: Piece, i: nat)
    ensures
        i < N_PIECES ==> piece_id(piece_of(i)) == i,
        piece_of(piece_id(p)) == p,
{
    assert(piece_of(piece_id(p)) =~= p);
}

/// The number of a piece.
pub fn piece_index(p: &Piece) -> (r: usize)
    ensures
        r == piece_id(*p),
{
    let mut r: usize = 0;
    if p[0] {
        r += 8;
    }
    if p[1] {
        r += 4;
    }
    if p[2] {
        r += 2;
    }
    if p[3] {
        r += 1;
    }
    r
}

/// The piece with the given number.
pub fn piece_from_index(i: usize) -> (p: Piece)
    requires
        i < N_PIECES,
    ensures
        p == piece_of(i as nat),
{
    [i / 8 % 2 == 1, i / 4 % 2 == 1, i / 2 % 2 == 1, i % 2 == 1]
}

} // verus!
