use scene_core::shader::{
    effective_fallback, resolve_bindings, ResolvedSampler, SamplerFallback, SamplerKind,
    ShaderProperty, ShaderPropertyKind, ShaderResourceDefinition, ShaderResourceKind,
};

#[test]
fn fallback_defaults() {
    assert_eq!(SamplerFallback::default(), SamplerFallback::White);
    assert_eq!(SamplerKind::default(), SamplerKind::Sampler2D);
    assert!(matches!(
        ShaderPropertyKind::default(),
        ShaderPropertyKind::Float(0)
    ));
    assert!(matches!(
        ShaderResourceKind::default(),
        ShaderResourceKind::PropertyGroup(g) if g.is_empty()
    ));
}

#[test]
fn fallback_selection_is_total() {
    let kinds = [
        SamplerKind::Sampler1D,
        SamplerKind::Sampler2D,
        SamplerKind::Sampler3D,
        SamplerKind::SamplerCube,
        SamplerKind::USampler1D,
        SamplerKind::USampler2D,
        SamplerKind::USampler3D,
        SamplerKind::USamplerCube,
    ];
    let fallbacks = [
        SamplerFallback::White,
        SamplerFallback::Normal,
        SamplerFallback::Black,
        SamplerFallback::Volume,
    ];
    for k in kinds {
        for f in fallbacks {
            let r = effective_fallback(k, f);
            let volume_kind = matches!(k, SamplerKind::Sampler3D | SamplerKind::USampler3D);
            // Exactly one applicable category: volume samplers always get the
            // volume placeholder, flat samplers never do.
            assert_eq!(volume_kind, r == SamplerFallback::Volume);
        }
    }
    assert_eq!(
        effective_fallback(SamplerKind::Sampler2D, SamplerFallback::Normal),
        SamplerFallback::Normal
    );
    assert_eq!(
        effective_fallback(SamplerKind::Sampler2D, SamplerFallback::Volume),
        SamplerFallback::White
    );
}

#[test]
fn binding_table_resolves_every_texture() {
    let defs = vec![
        ShaderResourceDefinition {
            name: String::from("diffuseTexture"),
            kind: ShaderResourceKind::Texture {
                kind: SamplerKind::Sampler2D,
                fallback: SamplerFallback::White,
            },
            binding: 0,
        },
        ShaderResourceDefinition {
            name: String::from("properties"),
            kind: ShaderResourceKind::PropertyGroup(vec![ShaderProperty::new(
                String::from("diffuseColor"),
                ShaderPropertyKind::Color {
                    r: 255,
                    g: 255,
                    b: 255,
                    a: 255,
                },
            )]),
            binding: 1,
        },
        ShaderResourceDefinition {
            name: String::from("volumeTexture"),
            kind: ShaderResourceKind::Texture {
                kind: SamplerKind::Sampler3D,
                fallback: SamplerFallback::White,
            },
            binding: 2,
        },
    ];
    let resolved = resolve_bindings(&defs);
    assert_eq!(
        resolved,
        vec![
            ResolvedSampler {
                binding: 0,
                fallback: SamplerFallback::White
            },
            ResolvedSampler {
                binding: 2,
                fallback: SamplerFallback::Volume
            }
        ]
    );
}

#[test]
fn built_in_prefix() {
    let mut d = ShaderResourceDefinition::default();
    assert!(!d.is_built_in());
    d.name = String::from("fyrox_instanceData");
    assert!(d.is_built_in());
    d.name = String::from("fyrox");
    assert!(!d.is_built_in());
    d.name = String::from("myTexture");
    assert!(!d.is_built_in());
}
