//! Shader resource model: typed property and resource definitions, sampler
//! fallbacks, and the resolution of texture binding slots.
//!
//! Floating-point payloads are carried as raw IEEE-754 bit patterns (`u32`):
//! the model only stores and moves these values, it never computes on them.

use vstd::prelude::*;

verus! {

/// A placeholder texture selected whenever no concrete texture is bound to a
/// sampler slot, so that shaders never read undefined texture data.
#[derive(Clone, Copy, Debug, PartialEq, Eq, Structural, Hash)]
pub enum SamplerFallback {
    /// A 1x1 opaque white texture.
    White,
    /// A 1x1 texture holding an up-facing (+Y) normal vector.
    Normal,
    /// A 1x1 opaque black texture.
    Black,
    /// A 1x1x1 volume texture with one black pixel.
    Volume,
}

impl Default for SamplerFallback {
    fn default() -> (r: Self)
        ensures
            r == SamplerFallback::White,
    {
        SamplerFallback::White
    }
}

/// The shape of a texture sampler declared by a shader.
#[derive(Clone, Copy, Debug, PartialEq, Eq, Structural, Hash)]
pub enum SamplerKind {
    Sampler1D,
    Sampler2D,
    Sampler3D,
    SamplerCube,
    USampler1D,
    USampler2D,
    USampler3D,
    USamplerCube,
}

impl Default for SamplerKind {
    fn default() -> (r: Self)
        ensures
            r == SamplerKind::Sampler2D,
    {
        SamplerKind::Sampler2D
    }
}

/// True for the sampler kinds that read three-dimensional (volume) textures.
pub open spec fn spec_is_volume_sampler(kind: SamplerKind) -> bool {
    kind == SamplerKind::Sampler3D || kind == SamplerKind::USampler3D
}

/// Exec mirror of [`spec_is_volume_sampler`].
pub fn is_volume_sampler(kind: SamplerKind) -> (r: bool)
    ensures
        r == spec_is_volume_sampler(kind),
{
    match kind {
        SamplerKind::Sampler3D => true,
        SamplerKind::USampler3D => true,
        _ => false,
    }
}

/// The placeholder that is actually used for a sampler of kind `kind` whose
/// definition requested `requested`: a volume sampler can only be backed by
/// the volume placeholder, and a flat sampler can never be backed by it (the
/// opaque white placeholder stands in instead).
pub open spec fn spec_effective_fallback(kind: SamplerKind, requested: SamplerFallback) -> SamplerFallback {
    if spec_is_volume_sampler(kind) {
        SamplerFallback::Volume
    } else if requested == SamplerFallback::Volume {
        SamplerFallback::White
    } else {
        requested
    }
}

/// Picks the placeholder texture for an unbound sampler slot.
pub fn effective_fallback(kind: SamplerKind, requested: SamplerFallback) -> (r: SamplerFallback)
    ensures
        r == spec_effective_fallback(kind, requested),
{
    if is_volume_sampler(kind) {
        SamplerFallback::Volume
    } else if requested == SamplerFallback::Volume {
        SamplerFallback::White
    } else {
        requested
    }
}

/// Sampler fallback selection is total: every sampler kind has exactly one
/// applicable fallback category, so no texture slot is ever left unresolved.
/// Volume samplers resolve to the volume placeholder and nothing else; every
/// other kind resolves to a flat placeholder and never to the volume one.
pub proof fn lemma_fallback_selection_total(kind: SamplerKind, requested: SamplerFallback)
    ensures
        spec_is_volume_sampler(kind) <==> spec_effective_fallback(kind, requested) == SamplerFallback::Volume,
        !spec_is_volume_sampler(kind) ==> spec_effective_fallback(kind, requested) != SamplerFallback::Volume,
{
}

/// A two-component float vector, carried as bit patterns.
#[derive(Clone, Copy, Debug, PartialEq, Eq, Structural, Hash)]
pub struct Vec2Bits {
    pub x: u32,
    pub y: u32,
}

/// A three-component float vector, carried as bit patterns.
#[derive(Clone, Copy, Debug, PartialEq, Eq, Structural, Hash)]
pub struct Vec3Bits {
    pub x: u32,
    pub y: u32,
    pub z: u32,
}

/// A four-component float vector, carried as bit patterns.
#[derive(Clone, Copy, Debug, PartialEq, Eq, Structural, Hash)]
pub struct Vec4Bits {
    pub x: u32,
    pub y: u32,
    pub z: u32,
    pub w: u32,
}

/// The entries of a square float matrix in row order, as bit patterns: 4 for
/// a 2x2 matrix, 9 for 3x3, 16 for 4x4.
#[derive(Clone, Debug, PartialEq, Eq, Hash)]
pub struct MatrixBits {
    pub entries: Vec<u32>,
}

/// A shader property with its default value. Array variants carry the fixed
/// capacity `max_len` the shader declares; a value never exceeds it.
#[derive(Clone, Debug, PartialEq)]
pub enum ShaderPropertyKind {
    Float(u32),
    FloatArray { value: Vec<u32>, max_len: usize },
    Int(i32),
    IntArray { value: Vec<i32>, max_len: usize },
    UInt(u32),
    UIntArray { value: Vec<u32>, max_len: usize },
    Bool(bool),
    Vector2(Vec2Bits),
    Vector2Array { value: Vec<Vec2Bits>, max_len: usize },
    Vector3(Vec3Bits),
    Vector3Array { value: Vec<Vec3Bits>, max_len: usize },
    Vector4(Vec4Bits),
    Vector4Array { value: Vec<Vec4Bits>, max_len: usize },
    Matrix2(MatrixBits),
    Matrix2Array { value: Vec<MatrixBits>, max_len: usize },
    Matrix3(MatrixBits),
    Matrix3Array { value: Vec<MatrixBits>, max_len: usize },
    Matrix4(MatrixBits),
    Matrix4Array { value: Vec<MatrixBits>, max_len: usize },
    /// An sRGB color with 8-bit channels; it must be converted to linear
    /// space at the point the value is uploaded to a binding.
    Color { r: u8, g: u8, b: u8, a: u8 },
}

pub open spec fn matrix_wf(m: MatrixBits, dim: int) -> bool {
    m.entries@.len() == dim * dim
}

pub open spec fn matrices_wf(v: Seq<MatrixBits>, dim: int) -> bool {
    forall|i: int| 0 <= i < v.len() ==> matrix_wf(#[trigger] v[i], dim)
}

/// The capacity and shape invariant: array values stay within their declared
/// `max_len`, matrices carry exactly their dimension's entries.
pub open spec fn kind_wf(k: ShaderPropertyKind) -> bool {
    match k {
        ShaderPropertyKind::FloatArray { value, max_len } => value@.len() <= max_len,
        ShaderPropertyKind::IntArray { value, max_len } => value@.len() <= max_len,
        ShaderPropertyKind::UIntArray { value, max_len } => value@.len() <= max_len,
        ShaderPropertyKind::Vector2Array { value, max_len } => value@.len() <= max_len,
        ShaderPropertyKind::Vector3Array { value, max_len } => value@.len() <= max_len,
        ShaderPropertyKind::Vector4Array { value, max_len } => value@.len() <= max_len,
        ShaderPropertyKind::Matrix2(m) => matrix_wf(m, 2),
        ShaderPropertyKind::Matrix2Array { value, max_len } => value@.len() <= max_len
            && matrices_wf(value@, 2),
        ShaderPropertyKind::Matrix3(m) => matrix_wf(m, 3),
        ShaderPropertyKind::Matrix3Array { value, max_len } => value@.len() <= max_len
            && matrices_wf(value@, 3),
        ShaderPropertyKind::Matrix4(m) => matrix_wf(m, 4),
        ShaderPropertyKind::Matrix4Array { value, max_len } => value@.len() <= max_len
            && matrices_wf(value@, 4),
        _ => true,
    }
}

impl Default for ShaderPropertyKind {
    /// A zero float (all-zero bit pattern).
    fn default() -> (r: Self)
        ensures
            r == ShaderPropertyKind::Float(0u32),
    {
        ShaderPropertyKind::Float(0)
    }
}

/// A named shader property.
#[derive(Clone, Debug, PartialEq)]
pub struct ShaderProperty {
    pub name: String,
    pub kind: ShaderPropertyKind,
}

impl ShaderProperty {
    pub fn new(name: String, kind: ShaderPropertyKind) -> (p: ShaderProperty)
        ensures
            p.name == name,
            p.kind == kind,
    {
        ShaderProperty { name, kind }
    }
}

/// What a shader resource binds: a texture with its sampler shape and
/// fallback, or an ordered group of properties.
#[derive(Clone, Debug, PartialEq)]
pub enum ShaderResourceKind {
    Texture { kind: SamplerKind, fallback: SamplerFallback },
    PropertyGroup(Vec<ShaderProperty>),
}

impl Default for ShaderResourceKind {
    /// An empty property group.
    fn default() -> (r: Self)
        ensures
            r matches ShaderResourceKind::PropertyGroup(g) && g@ == Seq::<ShaderProperty>::empty(),
    {
        ShaderResourceKind::PropertyGroup(Vec::new())
    }
}

/// One resource a shader declares: a unique name, its kind, and the binding
/// slot, unique among sibling definitions.
#[derive(Clone, Debug, PartialEq)]
pub struct ShaderResourceDefinition {
    /// A name of the resource.
    pub name: String,
    /// A kind of resource.
    pub kind: ShaderResourceKind,
    pub binding: usize,
}

impl Default for ShaderResourceDefinition {
    fn default() -> (r: Self)
        ensures
            r.name@ == Seq::<char>::empty(),
            r.kind matches ShaderResourceKind::PropertyGroup(g) && g@ == Seq::<
                ShaderProperty,
            >::empty(),
            r.binding == 0,
    {
        ShaderResourceDefinition {
            name: String::new(),
            kind: ShaderResourceKind::PropertyGroup(Vec::new()),
            binding: 0,
        }
    }
}

/// The reserved prefix that marks engine-internal resources.
pub open spec fn spec_built_in_prefix() -> Seq<char> {
    seq!['f', 'y', 'r', 'o', 'x', '_']
}

/// A name is built-in when it starts with the reserved prefix.
pub open spec fn spec_is_built_in(name: Seq<char>) -> bool {
    name.len() >= 6 && name.take(6) == spec_built_in_prefix()
}

impl ShaderResourceDefinition {
    /// Whether the resource is engine-internal, by the reserved name prefix;
    /// such resources stay off user-facing edit surfaces.
    #[verifier::loop_isolation(false)]
    pub fn is_built_in(&self) -> (r: bool)
        ensures
            r == spec_is_built_in(self.name@),
    {
        proof {
            reveal_strlit("fyrox_");
        }
        let prefix: &str = "fyrox_";
        let s: &str = self.name.as_str();
        let n: usize = s.unicode_len();
        if n < 6 {
            return false;
        }
        let mut i: usize = 0;
        while i < 6
            invariant
                0 <= i <= 6,
                n == s@.len() >= 6,
                s@ == self.name@,
                forall|j: int| 0 <= j < i ==> s@[j] == spec_built_in_prefix()[j],
            decreases 6 - i,
        {
            if s.get_char(i) != prefix.get_char(i) {
                proof {
                    assert(s@[i as int] != spec_built_in_prefix()[i as int]);
                    assert(self.name@.take(6)[i as int] == s@[i as int]);
                }
                return false;
            }
            i = i + 1;
        }
        proof {
            assert(self.name@.take(6) =~= spec_built_in_prefix());
        }
        true
    }
}

/// A texture slot with the placeholder that backs it while no texture is
/// bound.
#[derive(Clone, Copy, Debug, PartialEq, Eq, Structural, Hash)]
pub struct ResolvedSampler {
    pub binding: usize,
    pub fallback: SamplerFallback,
}

/// The resolved placeholder for every texture definition in the list, in
/// order.
pub open spec fn spec_resolved_samplers(defs: Seq<ShaderResourceDefinition>) -> Seq<
    ResolvedSampler,
>
    decreases defs.len(),
{
    if defs.len() == 0 {
        Seq::empty()
    } else {
        spec_resolved_samplers(defs.drop_last()) + match defs.last().kind {
            ShaderResourceKind::Texture { kind, fallback } => seq![
                ResolvedSampler {
                    binding: defs.last().binding,
                    fallback: spec_effective_fallback(kind, fallback),
                },
            ],
            _ => Seq::empty(),
        }
    }
}

/// Resolves every texture slot of a shader's resource list to a concrete
/// placeholder: no slot is left unresolved, whatever fallback was requested.
#[verifier::loop_isolation(false)]
pub fn resolve_bindings(defs: &Vec<ShaderResourceDefinition>) -> (r: Vec<ResolvedSampler>)
    ensures
        r@ == spec_resolved_samplers(defs@),
{
    let mut out: Vec<ResolvedSampler> = Vec::new();
    let n = defs.len();
    let mut i: usize = 0;
    proof {
        assert(out@ =~= spec_resolved_samplers(defs@.take(0)));
    }
    while i < n
        invariant
            0 <= i <= n,
            n == defs@.len(),
            out@ == spec_resolved_samplers(defs@.take(i as int)),
        decreases n - i,
    {
        match &defs[i].kind {
            ShaderResourceKind::Texture { kind, fallback } => {
                out.push(
                    ResolvedSampler {
                        binding: defs[i].binding,
                        fallback: effective_fallback(*kind, *fallback),
                    },
                );
            },
            _ => {},
        }
        proof {
            assert(defs@.take(i + 1 as int).drop_last() =~= defs@.take(i as int));
            assert(defs@.take(i + 1 as int).last() == defs@[i as int]);
            assert(out@ =~= spec_resolved_samplers(defs@.take(i + 1 as int)));
        }
        i = i + 1;
    }
    proof {
        assert(defs@.take(n as int) =~= defs@);
    }
    out
}

} // verus!
