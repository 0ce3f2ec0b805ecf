//! Color transform parameters of texture draws.

use vstd::prelude::*;

verus! {

/// Number of words in the color parameter block.
pub const PARAMS_WORDS: usize = 24;

/// Fixed range of the parameter descriptor; parameter blocks fit inside.
pub const PARAMS_RANGE: u32 = 512;

/// Parameters of the color transform that is applied to a texture or a solid color.
///
/// They can encode electrical sRGB content into PQ/BT.2020, handle extended-linear content,
/// convert PQ content back to SDR with tone mapping, and re-encode PQ content through a gamut
/// matrix. All fields zero is a passthrough.
///
/// Every field holds the bits of a single-precision number. Boolean parameters are zero or one.
/// Parameters are equal if all their bits are.
#[derive(Debug, Clone, Copy, PartialEq, Eq)]
pub struct ColorBlendParams {
    pub hdr_pq: u32,
    pub ref_lum_scale: u32,
    pub linear: u32,
    pub linear_scale: u32,
    pub linear_to_ref: u32,
    pub hdr_to_sdr: u32,
    pub pq_gamut: u32,
    pub use_gamut: u32,
    pub tonemap: u32,
    pub tm_v: u32,
    pub tm_ref_scale: u32,
    pub tm_out_scale: u32,
    /// Column-major 3x3 gamut conversion matrix, used when `use_gamut` is set.
    pub gamut: [u32; 9],
}

impl ColorBlendParams {
    /// The scalars, in the order in which they stand in the parameter block.
    pub open spec fn scalars(self) -> Seq<u32> {
        seq![
            self.hdr_pq,
            self.ref_lum_scale,
            self.linear,
            self.linear_scale,
            self.linear_to_ref,
            self.hdr_to_sdr,
            self.pq_gamut,
            self.use_gamut,
            self.tonemap,
            self.tm_v,
            self.tm_ref_scale,
            self.tm_out_scale,
        ]
    }

    /// std140 layout of the parameter block: 12 tightly packed scalars followed by a mat3,
    /// whose three columns are aligned like a vec4 and padded with zero.
    pub open spec fn std140(self) -> Seq<u32> {
        self.scalars() + Seq::new(
            12,
            |k: int|
                if k % 4 == 3 {
                    0u32
                } else {
                    self.gamut@[k / 4 * 3 + k % 4]
                },
        )
    }

    /// The parameter block.
    pub fn to_std140(self) -> (out: [u32; 24])
        ensures
            out@ == self.std140(),
    {
        let g = self.gamut;
        [
            self.hdr_pq,
            self.ref_lum_scale,
            self.linear,
            self.linear_scale,
            self.linear_to_ref,
            self.hdr_to_sdr,
            self.pq_gamut,
            self.use_gamut,
            self.tonemap,
            self.tm_v,
            self.tm_ref_scale,
            self.tm_out_scale,
            g[0],
            g[1],
            g[2],
            0,
            g[3],
            g[4],
            g[5],
            0,
            g[6],
            g[7],
            g[8],
            0,
        ]
    }
}

/// The parameters of a texture draw: its own ones if it has some, else the default ones. Without
/// any the draw is a passthrough.
pub open spec fn in_effect(
    own: Option<ColorBlendParams>,
    default: Option<ColorBlendParams>,
) -> Option<ColorBlendParams> {
    match own {
        Some(params) => Some(params),
        None => default,
    }
}

/// The parameters of a texture draw.
pub fn effective_params(own: Option<ColorBlendParams>, default: Option<ColorBlendParams>) -> (params:
    Option<ColorBlendParams>)
    ensures
        params == in_effect(own, default),
{
    match own {
        Some(params) => Some(params),
        None => default,
    }
}

/// The parameter block of a texture draw, which is zero for a passthrough.
pub fn params_block(params: Option<ColorBlendParams>) -> (block: [u32; 24])
    ensures
        match params {
            Some(params) => block@ == params.std140(),
            None => forall|k: int| 0 <= k < 24 ==> #[trigger] block@[k] == 0u32,
        },
{
    match params {
        Some(params) => params.to_std140(),
        None => ColorBlendParams::default().to_std140(),
    }
}

impl Default for ColorBlendParams {
    /// A passthrough.
    fn default() -> (params: Self)
        ensures
            forall|k: int| 0 <= k < PARAMS_WORDS ==> #[trigger] params.std140()[k] == 0u32,
    {
        ColorBlendParams {
            hdr_pq: 0,
            ref_lum_scale: 0,
            linear: 0,
            linear_scale: 0,
            linear_to_ref: 0,
            hdr_to_sdr: 0,
            pq_gamut: 0,
            use_gamut: 0,
            tonemap: 0,
            tm_v: 0,
            tm_ref_scale: 0,
            tm_out_scale: 0,
            gamut: [0, 0, 0, 0, 0, 0, 0, 0, 0],
        }
    }
}

/// Every parameter stands at its own place in the block: the scalars one after the other, and each
/// column of the matrix at the start of four words of which the last is zero.
pub proof fn law_params_have_their_places(params: ColorBlendParams, column: int, row: int)
    requires
        0 <= column < 3,
        0 <= row < 3,
    ensures
        ({
            let block = params.std140();
            &&& block.len() == 24
            &&& block[0] == params.hdr_pq && block[1] == params.ref_lum_scale
            &&& block[2] == params.linear && block[3] == params.linear_scale
            &&& block[4] == params.linear_to_ref && block[5] == params.hdr_to_sdr
            &&& block[6] == params.pq_gamut && block[7] == params.use_gamut
            &&& block[8] == params.tonemap && block[9] == params.tm_v
            &&& block[10] == params.tm_ref_scale && block[11] == params.tm_out_scale
            &&& block[12 + 4 * column + row] == params.gamut@[3 * column + row]
            &&& block[12 + 4 * column + 3] == 0
        }),
{
    let k = 4 * column + row;
    assert(k / 4 == column && k % 4 == row);
    let pad = 4 * column + 3;
    assert(pad % 4 == 3);
}

/// A draw's own parameters are in effect if it has some, and the default ones only if not.
pub proof fn law_own_params_come_first(
    own: Option<ColorBlendParams>,
    default: Option<ColorBlendParams>,
)
    ensures
        own is Some ==> in_effect(own, default) == own,
        own is None ==> in_effect(own, default) == default,
{
}

} // verus!
