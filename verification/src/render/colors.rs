//! Color constants of the pipelines, the per-object appearance flag bits,
//! and the packing of per-point colors into Rgba8Unorm vertex bytes.
use vstd::prelude::*;

use crate::io::Color;

verus! {

/// Default point color as sRGB bytes with opaque alpha, used when the data
/// has no per-point colors: the sRGB floats (0.8, 0.8, 0.9) as bytes.
pub const DEFAULT_POINT_COLOR_SRGB: [u8; 4] = [204, 204, 229, 255];

/// Byte stride of one position vertex: x, y, z as three 32-bit floats.
pub const POSITION_STRIDE_BYTES: u64 = 12;

/// Byte stride of one color vertex: a single packed Rgba8Unorm texel.
pub const COLOR_STRIDE_BYTES: u64 = 4;

/// Byte size of one object's appearance uniform: albedo 16 + flags 4 +
/// 12 padding + 32 reserved bytes.
pub const APPEARANCE_SIZE_BYTES: u64 = 64;

/// Appearance flag bit 0: replace the baked per-vertex colors with the
/// appearance albedo.
pub const APPEARANCE_FLAG_OVERRIDE: u32 = 1;

/// Appearance flag bit 1: selection highlight.
pub const APPEARANCE_FLAG_SELECTED: u32 = 2;

/// Frame axis color of X as sRGB bytes: pure red.
pub fn axis_x_color_srgb() -> (c: Color)
    ensures
        c == (Color { r: 255, g: 0, b: 0 }),
{
    Color { r: 255, g: 0, b: 0 }
}

/// Frame axis color of Y as sRGB bytes: pure green.
pub fn axis_y_color_srgb() -> (c: Color)
    ensures
        c == (Color { r: 0, g: 255, b: 0 }),
{
    Color { r: 0, g: 255, b: 0 }
}

/// Frame axis color of Z as sRGB bytes: pure blue.
pub fn axis_z_color_srgb() -> (c: Color)
    ensures
        c == (Color { r: 0, g: 0, b: 255 }),
{
    Color { r: 0, g: 0, b: 255 }
}

/// Default line color of paths and marker arrows: a soft amber.
pub fn line_amber_srgb() -> (c: Color)
    ensures
        c == (Color { r: 255, g: 196, b: 100 }),
{
    Color { r: 255, g: 196, b: 100 }
}

/// The flags of an appearance with the selection marker set (`selected`)
/// or cleared; every other bit is kept.
pub open spec fn selected_flags_spec(flags: u32, selected: bool) -> u32 {
    if selected {
        flags | APPEARANCE_FLAG_SELECTED
    } else {
        flags & !APPEARANCE_FLAG_SELECTED
    }
}

/// The appearance flags with the selection marker set or cleared: the
/// flag update behind an appearance's `with_selected`.
pub fn with_selected_flags(flags: u32, selected: bool) -> (r: u32)
    ensures
        r == selected_flags_spec(flags, selected),
{
    if selected {
        flags | APPEARANCE_FLAG_SELECTED
    } else {
        flags & !APPEARANCE_FLAG_SELECTED
    }
}

/// Setting or clearing the selection marker changes that bit alone: the
/// marker afterwards reads `selected`, and every other bit, the override
/// bit among them, keeps its value.
pub proof fn law_selection_touches_one_bit(flags: u32, selected: bool)
    ensures
        (selected_flags_spec(flags, selected) & 2u32 != 0) == selected,
        selected_flags_spec(flags, selected) & !2u32 == flags & !2u32,
        selected_flags_spec(flags, selected) & 1u32 == flags & 1u32,
        selected_flags_spec(selected_flags_spec(flags, selected), selected)
            == selected_flags_spec(flags, selected),
{
    if selected {
        assert((flags | 2u32) & 2u32 != 0) by (bit_vector);
        assert((flags | 2u32) & !2u32 == flags & !2u32) by (bit_vector);
        assert((flags | 2u32) & 1u32 == flags & 1u32) by (bit_vector);
        assert((flags | 2u32) | 2u32 == flags | 2u32) by (bit_vector);
    } else {
        assert((flags & !2u32) & 2u32 == 0) by (bit_vector);
        assert((flags & !2u32) & !2u32 == flags & !2u32) by (bit_vector);
        assert((flags & !2u32) & 1u32 == flags & 1u32) by (bit_vector);
    }
}

/// The four vertex bytes of a file color: sRGB bytes and an opaque alpha.
pub open spec fn color_bytes(c: Color) -> Seq<u8> {
    seq![c.r, c.g, c.b, 255u8]
}

/// File colors packed one Rgba8Unorm texel per point, in order.
pub open spec fn packed_file_colors(cs: Seq<Color>) -> Seq<u8>
    decreases cs.len(),
{
    if cs.len() == 0 {
        seq![]
    } else {
        packed_file_colors(cs.drop_last()) + color_bytes(cs.last())
    }
}

/// The default color repeated for `n` points.
pub open spec fn packed_default_colors(n: nat) -> Seq<u8>
    decreases n,
{
    if n == 0 {
        seq![]
    } else {
        packed_default_colors((n - 1) as nat) + DEFAULT_POINT_COLOR_SRGB@
    }
}

proof fn lemma_packed_len(cs: Seq<Color>, n: nat)
    ensures
        packed_file_colors(cs).len() == 4 * cs.len(),
        packed_default_colors(n).len() == 4 * n,
    decreases cs.len() + n,
{
    if cs.len() > 0 {
        lemma_packed_len(cs.drop_last(), n);
    }
    if n > 0 {
        lemma_packed_len(cs, (n - 1) as nat);
    }
}

/// Point `i`'s texel sits at bytes `4i..4i+4`: with file colors it is
/// that point's own color with an opaque alpha, without them it is the
/// default color; the buffer holds exactly one texel per point.
pub proof fn law_each_point_gets_its_own_texel(cs: Seq<Color>, n: nat)
    ensures
        packed_file_colors(cs).len() == 4 * cs.len(),
        forall|i: int|
            0 <= i < cs.len() ==> #[trigger] packed_file_colors(cs).subrange(4 * i, 4 * i + 4)
                == seq![cs[i].r, cs[i].g, cs[i].b, 255u8],
        packed_default_colors(n).len() == 4 * n,
        forall|i: int|
            0 <= i < n ==> #[trigger] packed_default_colors(n).subrange(4 * i, 4 * i + 4) == seq![
                204u8,
                204u8,
                229u8,
                255u8,
            ],
    decreases cs.len() + n,
{
    lemma_packed_len(cs, n);
    if cs.len() > 0 {
        law_each_point_gets_its_own_texel(cs.drop_last(), n);
        let init = packed_file_colors(cs.drop_last());
        assert forall|i: int| 0 <= i < cs.len() implies #[trigger] packed_file_colors(cs).subrange(
            4 * i,
            4 * i + 4,
        ) == seq![cs[i].r, cs[i].g, cs[i].b, 255u8] by {
            if i < cs.len() - 1 {
                assert(packed_file_colors(cs).subrange(4 * i, 4 * i + 4) =~= init.subrange(
                    4 * i,
                    4 * i + 4,
                ));
                assert(cs.drop_last()[i] == cs[i]);
            } else {
                assert(packed_file_colors(cs).subrange(4 * i, 4 * i + 4) =~= color_bytes(cs.last()));
            }
        }
    }
    if n > 0 {
        law_each_point_gets_its_own_texel(cs, (n - 1) as nat);
        let init = packed_default_colors((n - 1) as nat);
        assert(DEFAULT_POINT_COLOR_SRGB@ =~= seq![204u8, 204u8, 229u8, 255u8]);
        assert forall|i: int| 0 <= i < n implies #[trigger] packed_default_colors(n).subrange(
            4 * i,
            4 * i + 4,
        ) == seq![204u8, 204u8, 229u8, 255u8] by {
            if i < n - 1 {
                assert(packed_default_colors(n).subrange(4 * i, 4 * i + 4) =~= init.subrange(
                    4 * i,
                    4 * i + 4,
                ));
            } else {
                assert(packed_default_colors(n).subrange(4 * i, 4 * i + 4) =~= DEFAULT_POINT_COLOR_SRGB@);
            }
        }
    }
}

/// Serialize colors into one packed Rgba8Unorm texel (4 bytes) per point:
/// file colors padded with an opaque alpha, or, when the data has no
/// colors, [`DEFAULT_POINT_COLOR_SRGB`] for each of the `count` points.
pub fn pack_colors(count: usize, colors: Option<&[Color]>) -> (bytes: Vec<u8>)
    requires
        4 * count <= usize::MAX,
        colors matches Some(cs) ==> cs@.len() == count,
    ensures
        bytes@ == match colors {
            Some(cs) => packed_file_colors(cs@),
            None => packed_default_colors(count as nat),
        },
        bytes@.len() == 4 * count,
{
    let mut bytes: Vec<u8> = Vec::with_capacity(count * 4);
    proof {
        lemma_packed_len(seq![], count as nat);
        if let Some(cs) = colors {
            lemma_packed_len(cs@, 0);
        }
    }
    match colors {
        Some(cs) => {
            let mut i: usize = 0;
            assert(cs@.take(0) =~= Seq::<Color>::empty());
            while i < cs.len()
                invariant
                    i <= cs@.len(),
                    bytes@ == packed_file_colors(cs@.take(i as int)),
                decreases cs@.len() - i,
            {
                let c = cs[i];
                bytes.push(c.r);
                bytes.push(c.g);
                bytes.push(c.b);
                bytes.push(255u8);
                assert(cs@.take(i + 1).drop_last() =~= cs@.take(i as int));
                assert(bytes@ =~= packed_file_colors(cs@.take(i + 1)));
                i = i + 1;
            }
            assert(cs@.take(i as int) =~= cs@);
        },
        None => {
            let mut i: usize = 0;
            while i < count
                invariant
                    i <= count,
                    bytes@ == packed_default_colors(i as nat),
                decreases count - i,
            {
                bytes.push(DEFAULT_POINT_COLOR_SRGB[0]);
                bytes.push(DEFAULT_POINT_COLOR_SRGB[1]);
                bytes.push(DEFAULT_POINT_COLOR_SRGB[2]);
                bytes.push(DEFAULT_POINT_COLOR_SRGB[3]);
                assert(bytes@ =~= packed_default_colors((i + 1) as nat));
                i = i + 1;
            }
        },
    }
    bytes
}

} // verus!
