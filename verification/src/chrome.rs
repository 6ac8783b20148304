//! The spatial-only dashboard tiles: status color carries health and the
//! tile's position carries the column, so a tile shows only its status
//! glyph and column address.

use vstd::prelude::*;
use crate::hud::{push_spaces, sat_sub, spaces, tile_addr};
use crate::text::{chars_of, push_seq, string_of};

pub use crate::hud::{age_label, short_title};

verus! {

/// The spatial-only tile of the dashboard: glyph, address, one blank cell,
/// then padding; always exactly `w` cells.
pub open spec fn spatial_tile_spec(w: nat, addr: Seq<char>, glyph: char) -> Seq<char> {
    if w == 0 {
        Seq::empty()
    } else if w == 1 {
        seq![glyph]
    } else {
        let a = tile_addr(w, addr);
        if w <= a.len() + 1 {
            seq![glyph] + a
        } else {
            let s = seq![glyph] + a + seq![' '];
            (s + spaces(sat_sub(w as int, s.len() as int))).take(w as int)
        }
    }
}

/// Render one spatial-only tile's `w` cells of text: status color carries
/// health and position carries the column, so only the glyph and address
/// are drawn.
pub fn tile_text(w: u16, addr: &str, glyph: char) -> (out: String)
    ensures
        out@ == spatial_tile_spec(w as nat, addr@, glyph),
        out@.len() == w,
{
    let w = w as usize;
    let mut out: Vec<char> = Vec::new();
    if w == 0 {
        return string_of(&out);
    }
    if w == 1 {
        out.push(glyph);
        proof {
            assert(out@ =~= seq![glyph]);
        }
        return string_of(&out);
    }
    let addr_v = chars_of(addr);
    let a: Vec<char> = if addr_v.len() < w { addr_v } else { vec!['+'] };
    proof {
        assert(a@ == tile_addr(w as nat, addr@));
    }
    let alen = a.len();
    if w <= alen + 1 {
        out.push(glyph);
        push_seq(&mut out, &a);
        proof {
            assert(out@ =~= seq![glyph] + a@);
        }
        return string_of(&out);
    }
    out.push(glyph);
    push_seq(&mut out, &a);
    out.push(' ');
    let ghost s = out@;
    let used = out.len();
    let pad: usize = if w >= used { w - used } else { 0 };
    push_spaces(&mut out, pad);
    out.truncate(w);
    proof {
        assert(s =~= seq![glyph] + a@ + seq![' ']);
        assert(out@ =~= spatial_tile_spec(w as nat, addr@, glyph));
    }
    string_of(&out)
}

/// A spatial tile is exactly `w` cells: its status glyph, then its column
/// address when the address fits beside it (`+` when it does not), then
/// blanks to the tile's end.
pub proof fn a_spatial_tile_is_its_glyph_and_address(w: nat, addr: Seq<char>, glyph: char)
    requires
        w >= 1,
    ensures
        spatial_tile_spec(w, addr, glyph).len() == w,
        spatial_tile_spec(w, addr, glyph)[0] == glyph,
        addr.len() + 1 < w ==> ({
            let t = spatial_tile_spec(w, addr, glyph);
            &&& t.len() == w
            &&& t.subrange(1, 1 + addr.len() as int) == addr
            &&& forall|j: int| 1 + addr.len() <= j < w ==> #[trigger] t[j] == ' '
        }),
{
    if w >= 2 {
        let a = tile_addr(w, addr);
        if w > a.len() + 1 {
            let s = seq![glyph] + a + seq![' '];
            let full = s + spaces(sat_sub(w as int, s.len() as int));
            assert(full.len() == w);
            assert(full.take(w as int) =~= full);
            assert(full[0] == glyph);
            if addr.len() + 1 < w {
                assert(full.subrange(1, 1 + addr.len() as int) =~= addr);
                assert forall|j: int| 1 + addr.len() <= j < w implies #[trigger] full[j] == ' ' by {
                    if j < s.len() {
                        assert(full[j] == s[j]);
                    }
                }
            }
        } else {
            assert((seq![glyph] + a)[0] == glyph);
        }
    }
}

} // verus!
