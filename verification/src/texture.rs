//! Texture descriptors: formats, filters, wrapping modes, dimensions and flags.
use vstd::prelude::*;
use vstd::arithmetic::power2::{pow2, lemma_pow2_unfold, lemma_pow2_adds, lemma2_to64, lemma2_to64_rest};

verus! {

/// The internal format of a texture.
#[derive(Clone, Copy, PartialEq, Eq, Structural, Debug)]
pub enum TextureFormat {
    R8,
    R16,
    R32,
    R16F,
    R32f,
    RG8,
    RG16,
    RG32,
    RG16F,
    RG32F,
    RGB8,
    RGB16,
    RGB32,
    RGB16F,
    RGB32F,
    RGBA8,
    RGBA16,
    RGBA32,
    RGBA16F,
    RGBA32F,
}

/// The data type of the texels handed to the GPU.
#[derive(Clone, Copy, PartialEq, Eq, Structural, Debug)]
pub enum DataType {
    UByte,
    Byte,
    UInt16,
    Int16,
    UInt32,
    Int32,
    Float32,
}

/// A small set of texture flags, stored as bits.
#[derive(Clone, Copy, PartialEq, Eq, Structural, Debug)]
pub struct TextureFlags {
    bits: u8,
}

impl TextureFlags {
    /// The bit that marks a mutable texture.
    pub const MUTABLE_BIT: u8 = 1;
    /// The bit that marks a texture with generated mipmaps.
    pub const MIPMAPS_BIT: u8 = 2;

    /// Only defined bits are ever set.
    #[verifier::type_invariant]
    pub closed spec fn wf(self) -> bool {
        self.bits < 4
    }

    pub closed spec fn spec_bits(self) -> u8 {
        self.bits
    }

    /// The empty set of flags.
    pub fn empty() -> (r: TextureFlags)
        ensures
            r.spec_bits() == 0,
    {
        TextureFlags { bits: 0 }
    }

    /// The flag marking a mutable texture.
    pub fn mutable() -> (r: TextureFlags)
        ensures
            r.spec_bits() == 1,
    {
        TextureFlags { bits: Self::MUTABLE_BIT }
    }

    /// The flag marking a texture with mipmaps.
    pub fn mipmaps() -> (r: TextureFlags)
        ensures
            r.spec_bits() == 2,
    {
        TextureFlags { bits: Self::MIPMAPS_BIT }
    }

    /// Builds flags from raw bits, dropping the bits that name no flag.
    pub fn from_bits_truncate(bits: u8) -> (r: TextureFlags)
        ensures
            r.spec_bits() == bits & 3,
    {
        assert(bits & 3 < 4) by (bit_vector);
        TextureFlags { bits: bits & 3 }
    }

    /// The raw bits of the flags.
    pub fn bits(&self) -> (r: u8)
        ensures
            r == self.spec_bits(),
    {
        self.bits
    }

    /// Whether every flag of `other` is set in `self`.
    pub fn contains(&self, other: TextureFlags) -> (r: bool)
        ensures
            r == (self.spec_bits() & other.spec_bits() == other.spec_bits()),
    {
        self.bits & other.bits == other.bits
    }

    /// The flags set in either operand.
    pub fn union(self, other: TextureFlags) -> (r: TextureFlags)
        ensures
            r.spec_bits() == self.spec_bits() | other.spec_bits(),
    {
        proof {
            use_type_invariant(&self);
            use_type_invariant(&other);
        }
        let a = self.bits;
        let b = other.bits;
        assert(a < 4 && b < 4 ==> a | b < 4) by (bit_vector);
        TextureFlags { bits: a | b }
    }

    /// The flags of `self` that are not set in `other`.
    pub fn difference(self, other: TextureFlags) -> (r: TextureFlags)
        ensures
            r.spec_bits() == self.spec_bits() & (!other.spec_bits() & 3),
    {
        let a = self.bits;
        let b = other.bits;
        assert(a & (!b & 3) < 4) by (bit_vector);
        TextureFlags { bits: a & (!b & 3) }
    }
}

/// How a texture is loaded: its filter and wrapping mode.
#[derive(Clone, Copy, PartialEq, Eq, Structural, Debug)]
pub struct TextureLoadOptions {
    pub filter: TextureFilter,
    pub wrapping: TextureWrapping,
}

impl TextureLoadOptions {
    /// Linear filtering with repeat wrapping.
    pub fn default() -> (r: TextureLoadOptions)
        ensures
            r.filter == TextureFilter::Linear,
            r.wrapping == TextureWrapping::Repeat,
    {
        TextureLoadOptions { filter: TextureFilter::Linear, wrapping: TextureWrapping::Repeat }
    }
}

/// Texture filters.
#[derive(Clone, Copy, PartialEq, Eq, Structural, Debug)]
pub enum TextureFilter {
    Linear,
    Nearest,
}

/// Texture wrapping modes.
#[derive(Clone, Copy, PartialEq, Eq, Structural, Debug)]
pub enum TextureWrapping {
    ClampToEdge,
    ClampToBorder,
    Repeat,
    MirroredRepeat,
}

/// The kind of a texture together with its dimensions.
#[derive(Clone, Copy, PartialEq, Eq, Structural, Debug)]
pub enum TextureType {
    Texture1D(u16),
    Texture2D(u16, u16),
    Texture3D(u16, u16, u16),
    TextureArray(u16, u16, u16),
}

/// Access type when binding an image to a compute shader.
#[derive(Clone, Copy, PartialEq, Eq, Structural, Debug)]
pub enum TextureShaderAccessType {
    ReadOnly,
    WriteOnly,
    ReadWrite,
}

/// A texture descriptor; the GPU object itself is created elsewhere.
#[derive(Clone, Debug)]
pub struct Texture {
    pub id: u32,
    pub name: String,
    pub _format: TextureFormat,
    pub _type: DataType,
    pub flags: TextureFlags,
    pub filter: TextureFilter,
    pub wrap_mode: TextureWrapping,
    pub ttype: TextureType,
}

/// The width of a texture of the given type.
pub open spec fn type_width(t: TextureType) -> u16 {
    match t {
        TextureType::Texture1D(x) => x,
        TextureType::Texture2D(x, _) => x,
        TextureType::Texture3D(x, _, _) => x,
        TextureType::TextureArray(x, _, _) => x,
    }
}

/// Whether a texture of the given type has a height.
pub open spec fn has_height(t: TextureType) -> bool {
    !(t is Texture1D)
}

/// Whether a texture of the given type has a depth.
pub open spec fn has_depth(t: TextureType) -> bool {
    t is Texture3D || t is TextureArray
}

/// The bit length of `n`: the number of binary digits needed to write it.
pub open spec fn bit_length(n: nat) -> nat
    decreases n,
{
    if n == 0 {
        0
    } else {
        1 + bit_length(n / 2)
    }
}

/// How many times the single precision float nearest to `i` can be halved
/// while it stays above one.
///
/// With `L` the bit length of `i`, the float nearest to `i` lies in
/// `[2^(L-1), 2^L]`. It equals `2^(L-1)` exactly when `i` exceeds `2^(L-1)` by
/// at most half a unit in the last place (ties round to the even power of two);
/// a float has 24 significant bits, so that half unit is `2^(L-25)` when
/// `L > 24` and nothing below. The count is then `L - 1`, and `L` otherwise.
pub open spec fn mipmap_levels(i: nat) -> nat {
    if i <= 1 {
        0
    } else {
        let l = bit_length(i);
        let low = pow2((l - 1) as nat);
        let half_ulp: nat = if l > 24 { pow2((l - 25) as nat) } else { 0 };
        if i - low <= half_ulp {
            (l - 1) as nat
        } else {
            l
        }
    }
}

/// Below `2^(k+1)` and at least `2^k`, a number has bit length `k + 1`.
proof fn lemma_bit_length_between(n: nat, k: nat)
    requires
        pow2(k) <= n < pow2(k + 1),
    ensures
        bit_length(n) == k + 1,
    decreases k,
{
    lemma_pow2_unfold(k + 1);
    if k == 0 {
        lemma2_to64();
        assert(n == 1);
        assert(bit_length(0) == 0);
    } else {
        lemma_pow2_unfold(k);
        assert(pow2((k - 1) as nat) <= n / 2 < pow2(k));
        lemma_bit_length_between(n / 2, (k - 1) as nat);
    }
}

/// Whether `t` is the texture that `Texture::default` makes: unnamed, two
/// dimensional RGBA8 of size zero, linear and repeating, without flags.
pub open spec fn is_default_texture(t: Texture) -> bool {
    &&& t.id == 0
    &&& t.name@ == Seq::<char>::empty()
    &&& t._format == TextureFormat::RGBA8
    &&& t._type == DataType::UByte
    &&& t.flags.spec_bits() == 0
    &&& t.filter == TextureFilter::Linear
    &&& t.wrap_mode == TextureWrapping::Repeat
    &&& t.ttype == TextureType::Texture2D(0, 0)
}

impl Texture {
    /// An unnamed two dimensional RGBA8 texture of size zero.
    pub fn default() -> (r: Texture)
        ensures
            r.id == 0,
            r.name@ == Seq::<char>::empty(),
            r._format == TextureFormat::RGBA8,
            r._type == DataType::UByte,
            r.flags.spec_bits() == 0,
            r.filter == TextureFilter::Linear,
            r.wrap_mode == TextureWrapping::Repeat,
            r.ttype == TextureType::Texture2D(0, 0),
    {
        Texture {
            id: 0,
            name: String::new(),
            _format: TextureFormat::RGBA8,
            _type: DataType::UByte,
            flags: TextureFlags::empty(),
            filter: TextureFilter::Linear,
            wrap_mode: TextureWrapping::Repeat,
            ttype: TextureType::Texture2D(0, 0),
        }
    }

    /// Sets the name.
    pub fn set_name(self, name: &str) -> (r: Texture)
        ensures
            r.name@ == name@,
            r.id == self.id,
            r._format == self._format,
            r._type == self._type,
            r.flags == self.flags,
            r.filter == self.filter,
            r.wrap_mode == self.wrap_mode,
            r.ttype == self.ttype,
    {
        let mut t = self;
        t.name = name.to_owned();
        t
    }

    /// Sets the internal format.
    pub fn set_format(self, _format: TextureFormat) -> (r: Texture)
        ensures
            r == (Texture { _format, ..self }),
    {
        let mut t = self;
        t._format = _format;
        t
    }

    /// Sets the dimensions (together with the kind of texture).
    pub fn set_dimensions(self, ttype: TextureType) -> (r: Texture)
        ensures
            r == (Texture { ttype, ..self }),
    {
        let mut t = self;
        t.ttype = ttype;
        t
    }

    /// Sets the kind of texture (together with its dimensions).
    pub fn set_type(self, ttype: TextureType) -> (r: Texture)
        ensures
            r == (Texture { ttype, ..self }),
    {
        let mut t = self;
        t.ttype = ttype;
        t
    }

    /// Guesses how many mipmap levels a texture whose largest coordinate is
    /// `i` can have: the number of times `i`, taken as a single precision
    /// float, can be halved while it stays above one.
    pub fn guess_mipmap_levels(i: usize) -> (r: usize)
        ensures
            r == mipmap_levels(i as nat),
    {
        if i <= 1 {
            return 0;
        }
        // Largest power of two not above `i`, and its exponent plus one.
        let mut low: usize = 1;
        let mut l: usize = 1;
        proof {
            lemma2_to64();
        }
        while low <= i / 2
            invariant
                1 <= l <= 64,
                1 <= low,
                low as nat == pow2((l - 1) as nat),
                low <= i,
            decreases i - low,
        {
            proof {
                lemma_pow2_unfold(l as nat);
                if l == 64 {
                    lemma2_to64_rest();
                    assert(false);
                }
            }
            low = low * 2;
            l = l + 1;
        }
        proof {
            lemma_pow2_unfold(l as nat);
            lemma_bit_length_between(i as nat, (l - 1) as nat);
        }
        let half_ulp: usize = if l > 24 {
            proof {
                lemma_pow2_adds((l - 25) as nat, 24);
                lemma2_to64();
                assert(pow2(24) == 16777216);
                assert(low as nat == pow2((l - 25) as nat) * 16777216);
                assert(low as nat / 16777216 == pow2((l - 25) as nat)) by (nonlinear_arith)
                    requires low as nat == pow2((l - 25) as nat) * 16777216;
            }
            low / 16777216
        } else {
            0
        };
        if i - low <= half_ulp {
            l - 1
        } else {
            l
        }
    }

    /// Turns on mipmap generation.
    pub fn enable_mipmaps(self) -> (r: Texture)
        ensures
            r.flags.spec_bits() == self.flags.spec_bits() | 2,
            r == (Texture { flags: r.flags, ..self }),
    {
        let mut t = self;
        t.flags = t.flags.union(TextureFlags::mipmaps());
        t
    }

    /// Turns off mipmap generation.
    pub fn disable_mipmaps(self) -> (r: Texture)
        ensures
            r.flags.spec_bits() == self.flags.spec_bits() & (!2u8 & 3),
            r == (Texture { flags: r.flags, ..self }),
    {
        let mut t = self;
        t.flags = t.flags.difference(TextureFlags::mipmaps());
        t
    }

    /// Sets the magnification and minification filter.
    pub fn set_filter(self, filter: TextureFilter) -> (r: Texture)
        ensures
            r == (Texture { filter, ..self }),
    {
        let mut t = self;
        t.filter = filter;
        t
    }

    /// Sets the wrapping mode.
    pub fn set_wrapping_mode(self, wrapping_mode: TextureWrapping) -> (r: Texture)
        ensures
            r == (Texture { wrap_mode: wrapping_mode, ..self }),
    {
        let mut t = self;
        t.wrap_mode = wrapping_mode;
        t
    }

    /// Replaces the flags.
    pub fn set_flags(self, flags: TextureFlags) -> (r: Texture)
        ensures
            r == (Texture { flags, ..self }),
    {
        let mut t = self;
        t.flags = flags;
        t
    }

    /// The width of the texture.
    pub fn get_width(&self) -> (r: u16)
        ensures
            r == type_width(self.ttype),
    {
        match self.ttype {
            TextureType::Texture1D(x) => x,
            TextureType::Texture2D(x, _) => x,
            TextureType::Texture3D(x, _, _) => x,
            TextureType::TextureArray(x, _, _) => x,
        }
    }

    /// The height of the texture; one dimensional textures have none.
    pub fn get_height(&self) -> (r: u16)
        requires
            has_height(self.ttype),
        ensures
            r == match self.ttype {
                TextureType::Texture2D(_, y) => y,
                TextureType::Texture3D(_, y, _) => y,
                TextureType::TextureArray(_, y, _) => y,
                TextureType::Texture1D(_) => 0,
            },
    {
        match self.ttype {
            TextureType::Texture2D(_, y) => y,
            TextureType::Texture3D(_, y, _) => y,
            TextureType::TextureArray(_, y, _) => y,
            TextureType::Texture1D(_) => 0,
        }
    }

    /// The depth of a three dimensional or array texture.
    pub fn get_depth(&self) -> (r: u16)
        requires
            has_depth(self.ttype),
        ensures
            r == match self.ttype {
                TextureType::Texture3D(_, _, z) => z,
                TextureType::TextureArray(_, _, z) => z,
                _ => 0,
            },
    {
        match self.ttype {
            TextureType::Texture3D(_, _, z) => z,
            TextureType::TextureArray(_, _, z) => z,
            _ => 0,
        }
    }
}

} // verus!
