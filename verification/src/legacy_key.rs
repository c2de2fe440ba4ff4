use vstd::prelude::*;

use crate::cdb_fen::{
    board_syms, castling_section_syms, lemma_board_syms_len, lemma_castle_color_bounds,
    castling_syms_vec, push_board, turn_sym,
};
use crate::nibbles::Nibbles;
use crate::position::{PosView, Position};

verus! {

/// The symbols of the legacy text key: the board and turn as in the binary
/// key, the castling section in the legacy alphabet (a white Chess960 file
/// as the letter of the file), and the en-passant square as its file digit,
/// a letter `e`, and its rank letter; without one, a closing 9.
pub open spec fn legacy_syms(v: PosView) -> Seq<u8> {
    board_syms(v.board) + seq![turn_sym(v)] + castling_section_syms(v, true) + (match v.ep_square {
        Some(e) => seq![(1 + e % 8) as u8, 0xeu8, (0xa + e / 8) as u8],
        None => seq![9u8],
    })
}

/// A symbol as a character: 0 to 9 as digits, 10 and up as letters from `a`.
pub open spec fn sym_char(s: u8) -> u8 {
    if s < 10 {
        (0x30 + s) as u8
    } else {
        (0x57 + s) as u8
    }
}

/// The legacy text key: each symbol as its character.
pub open spec fn spec_hex_fen(v: PosView) -> Seq<u8> {
    legacy_syms(v).map_values(|s: u8| sym_char(s))
}

/// Writes the characters of the symbols `syms`.
fn push_sym_chars(out: &mut Vec<u8>, syms: &Vec<u8>)
    requires
        forall|j: int| 0 <= j < syms@.len() ==> syms@[j] < 18,
    ensures
        final(out)@ == old(out)@ + syms@.map_values(|s: u8| sym_char(s)),
{
    let n = syms.len();
    let mut i: usize = 0;
    while i < n
        invariant
            n == syms@.len(),
            i <= n,
            forall|j: int| 0 <= j < n ==> syms@[j] < 18,
            out@ == old(out)@ + syms@.take(i as int).map_values(|s: u8| sym_char(s)),
        decreases n - i,
    {
        let s = syms[i];
        let ch: u8 = if s < 10 {
            0x30 + s
        } else {
            0x57 + s
        };
        out.push(ch);
        proof {
            assert(out@ =~= old(out)@ + syms@.take(i as int + 1).map_values(
                |s: u8| sym_char(s),
            ));
        }
        i += 1;
    }
    proof {
        assert(syms@.take(n as int) =~= syms@);
    }
}

/// The legacy text key of the position as given, without canonicalization
/// and without the binary prefix.
pub fn hex_fen(pos: &Position) -> (r: Vec<u8>)
    requires
        pos@.wf(),
    ensures
        r@ == spec_hex_fen(pos@),
{
    let ghost v = pos@;
    let mut out: Vec<u8> = Vec::new();

    // Board and turn, in the shared nibble alphabet.
    let mut nibbles = Nibbles::new();
    push_board(&mut nibbles, pos);
    nibbles.push_nibble(if pos.turn_black {
        1
    } else {
        0
    });
    proof {
        lemma_board_syms_len(v.board, 8);
    }
    let n = nibbles.len();
    let mut i: usize = 0;
    while i < n
        invariant
            nibbles.wf(),
            n == nibbles@.len(),
            i <= n,
            out@ == nibbles@.take(i as int).map_values(|s: u8| sym_char(s)),
        decreases n - i,
    {
        let s = nibbles.nibble_at(i);
        let ch: u8 = if s < 10 {
            0x30 + s
        } else {
            0x57 + s
        };
        out.push(ch);
        proof {
            assert(out@ =~= nibbles@.take(i as int + 1).map_values(|s: u8| sym_char(s)));
        }
        i += 1;
    }
    proof {
        assert(nibbles@.take(n as int) =~= nibbles@);
    }

    // Castling rights, in the legacy alphabet.
    let syms = castling_syms_vec(pos, true);
    proof {
        lemma_castle_color_bounds(v, false, true, 7);
        lemma_castle_color_bounds(v, true, true, 7);
    }
    if syms.len() == 0 {
        out.push(0x30);
        proof {
            assert(seq![0x30u8] =~= seq![0u8].map_values(|s: u8| sym_char(s)));
        }
    } else {
        push_sym_chars(&mut out, &syms);
    }

    // En-passant square, or the closing 9.
    match pos.ep_square {
        Some(e) => {
            let mut ep_syms: Vec<u8> = Vec::new();
            ep_syms.push(1 + e % 8);
            ep_syms.push(0xe);
            ep_syms.push(0xa + e / 8);
            push_sym_chars(&mut out, &ep_syms);
            proof {
                assert(ep_syms@ =~= seq![(1 + e % 8) as u8, 0xeu8, (0xa + e / 8) as u8]);
            }
        },
        None => {
            out.push(0x39);
            proof {
                assert(seq![0x39u8] =~= seq![9u8].map_values(|s: u8| sym_char(s)));
            }
        },
    }

    proof {
        let f = |s: u8| sym_char(s);
        let a = board_syms(v.board) + seq![turn_sym(v)];
        let c = castling_section_syms(v, true);
        let e = match v.ep_square {
            Some(e) => seq![(1 + e % 8) as u8, 0xeu8, (0xa + e / 8) as u8],
            None => seq![9u8],
        };
        assert(nibbles@ =~= a);
        assert(out@ =~= a.map_values(f) + c.map_values(f) + e.map_values(f));
        assert(legacy_syms(v) =~= a + c + e);
        assert(out@ =~= legacy_syms(v).map_values(f));
    }
    out
}

} // verus!
