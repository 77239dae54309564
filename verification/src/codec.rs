//! A small structured serializer for scene nodes and custom tile colliders:
//! a value is written as a flat stream of 64-bit words and read back field
//! for field. Reading what was written yields the value again
//! ([`lemma_node_round_trip`], [`lemma_collider_round_trip`]).

use crate::graph::{Node, NodeKind};
use crate::pool::Handle;
use crate::shader::{
    MatrixBits, SamplerFallback, SamplerKind, ShaderProperty, ShaderPropertyKind,
    ShaderResourceDefinition, ShaderResourceKind, Vec2Bits, Vec3Bits, Vec4Bits,
};
use crate::tile_collider::{CustomTileCollider, TriangleDefinition, Vector2};
use vstd::prelude::*;

verus! {

broadcast use vstd::utf8::char_is_scalar, vstd::utf8::char_u32_cast;

// ---------------------------------------------------------------------------
// Primitives
// ---------------------------------------------------------------------------
/// Reads one word.
pub open spec fn dec_word(s: Seq<u64>, pos: int) -> Option<(u64, int)> {
    if 0 <= pos < s.len() {
        Some((s[pos], pos + 1))
    } else {
        None
    }
}

/// A character as one word.
pub open spec fn enc_chars(cs: Seq<char>) -> Seq<u64>
    decreases cs.len(),
{
    if cs.len() == 0 {
        Seq::empty()
    } else {
        seq![(cs[0] as u32) as u64] + enc_chars(cs.drop_first())
    }
}

pub open spec fn is_scalar_word(w: u64) -> bool {
    w < 0xD800 || (0xDFFF < w && w <= 0x10FFFF)
}

/// Reads `count` characters.
pub open spec fn dec_chars(s: Seq<u64>, pos: int, count: nat) -> Option<(Seq<char>, int)>
    decreases count,
{
    if count == 0 {
        Some((Seq::empty(), pos))
    } else {
        match dec_word(s, pos) {
            None => None,
            Some((w, p1)) => if is_scalar_word(w) {
                match dec_chars(s, p1, (count - 1) as nat) {
                    None => None,
                    Some((cs, p2)) => Some((seq![(w as u32) as char] + cs, p2)),
                }
            } else {
                None
            },
        }
    }
}

/// A string: its length, then its characters.
pub open spec fn enc_string(cs: Seq<char>) -> Seq<u64> {
    seq![cs.len() as u64] + enc_chars(cs)
}

pub open spec fn dec_string(s: Seq<u64>, pos: int) -> Option<(Seq<char>, int)> {
    match dec_word(s, pos) {
        None => None,
        Some((w, p1)) => dec_chars(s, p1, w as nat),
    }
}

/// A handle packed into one word: the index in the low half, the generation
/// in the high half.
pub open spec fn enc_handle(h: Handle) -> Seq<u64> {
    seq![(h.index as u64 + (h.generation as u64) * 0x1_0000_0000) as u64]
}

pub open spec fn dec_handle(s: Seq<u64>, pos: int) -> Option<(Handle, int)> {
    match dec_word(s, pos) {
        None => None,
        Some((w, p1)) => Some(
            (
                Handle {
                    index: (w % 0x1_0000_0000) as u32,
                    generation: (w / 0x1_0000_0000) as u32,
                },
                p1,
            ),
        ),
    }
}

/// A handle list, one packed word per handle.
pub open spec fn enc_handles(hs: Seq<Handle>) -> Seq<u64>
    decreases hs.len(),
{
    if hs.len() == 0 {
        Seq::empty()
    } else {
        enc_handle(hs[0]) + enc_handles(hs.drop_first())
    }
}

pub open spec fn dec_handles(s: Seq<u64>, pos: int, count: nat) -> Option<(Seq<Handle>, int)>
    decreases count,
{
    if count == 0 {
        Some((Seq::empty(), pos))
    } else {
        match dec_handle(s, pos) {
            None => None,
            Some((h, p1)) => match dec_handles(s, p1, (count - 1) as nat) {
                None => None,
                Some((hs, p2)) => Some((seq![h] + hs, p2)),
            },
        }
    }
}

/// A node kind as one word.
pub open spec fn kind_tag(k: NodeKind) -> u64 {
    match k {
        NodeKind::Base => 0,
        NodeKind::PointLight => 1,
        NodeKind::DirectionalLight => 2,
        NodeKind::SpotLight => 3,
        NodeKind::Joint => 4,
        NodeKind::Joint2d => 5,
        NodeKind::RigidBody => 6,
        NodeKind::RigidBody2d => 7,
        NodeKind::Collider => 8,
        NodeKind::Collider2d => 9,
        NodeKind::Sound => 10,
    }
}

pub open spec fn kind_of_tag(w: u64) -> Option<NodeKind> {
    if w == 0 {
        Some(NodeKind::Base)
    } else if w == 1 {
        Some(NodeKind::PointLight)
    } else if w == 2 {
        Some(NodeKind::DirectionalLight)
    } else if w == 3 {
        Some(NodeKind::SpotLight)
    } else if w == 4 {
        Some(NodeKind::Joint)
    } else if w == 5 {
        Some(NodeKind::Joint2d)
    } else if w == 6 {
        Some(NodeKind::RigidBody)
    } else if w == 7 {
        Some(NodeKind::RigidBody2d)
    } else if w == 8 {
        Some(NodeKind::Collider)
    } else if w == 9 {
        Some(NodeKind::Collider2d)
    } else if w == 10 {
        Some(NodeKind::Sound)
    } else {
        None
    }
}

// ---------------------------------------------------------------------------
// Nodes
// ---------------------------------------------------------------------------
/// What a node holds, as mathematical values.
pub struct NodeData {
    pub name: Seq<char>,
    pub kind: NodeKind,
    pub is_resource_instance: bool,
    pub parent: Handle,
    pub children: Seq<Handle>,
}

pub open spec fn node_data(n: Node) -> NodeData {
    NodeData {
        name: n.name@,
        kind: n.kind,
        is_resource_instance: n.is_resource_instance,
        parent: n.parent,
        children: n.children@,
    }
}

/// A node's serialized form: name, kind, instance flag, parent, then the
/// children list with its length.
pub open spec fn enc_node(d: NodeData) -> Seq<u64> {
    enc_string(d.name) + seq![kind_tag(d.kind)] + seq![
        if d.is_resource_instance {
            1u64
        } else {
            0u64
        },
    ] + enc_handle(d.parent) + seq![d.children.len() as u64] + enc_handles(d.children)
}

pub open spec fn dec_node(s: Seq<u64>, pos: int) -> Option<(NodeData, int)> {
    match dec_string(s, pos) {
        None => None,
        Some((name, p1)) => match dec_word(s, p1) {
            None => None,
            Some((kw, p2)) => match kind_of_tag(kw) {
                None => None,
                Some(kind) => match dec_word(s, p2) {
                    None => None,
                    Some((fw, p3)) => if fw <= 1 {
                        match dec_handle(s, p3) {
                            None => None,
                            Some((parent, p4)) => match dec_word(s, p4) {
                                None => None,
                                Some((cw, p5)) => match dec_handles(s, p5, cw as nat) {
                                    None => None,
                                    Some((children, p6)) => Some(
                                        (
                                            NodeData {
                                                name,
                                                kind,
                                                is_resource_instance: fw == 1,
                                                parent,
                                                children,
                                            },
                                            p6,
                                        ),
                                    ),
                                },
                            },
                        }
                    } else {
                        None
                    },
                },
            },
        },
    }
}

// ---------------------------------------------------------------------------
// Reading what was written yields the value back
// ---------------------------------------------------------------------------
proof fn lemma_enc_chars_len(cs: Seq<char>)
    ensures
        enc_chars(cs).len() == cs.len(),
    decreases cs.len(),
{
    if cs.len() > 0 {
        lemma_enc_chars_len(cs.drop_first());
    }
}

proof fn lemma_enc_handles_len(hs: Seq<Handle>)
    ensures
        enc_handles(hs).len() == hs.len(),
    decreases hs.len(),
{
    if hs.len() > 0 {
        lemma_enc_handles_len(hs.drop_first());
    }
}

proof fn lemma_dec_chars_at(s: Seq<u64>, pos: int, cs: Seq<char>)
    requires
        0 <= pos,
        pos + cs.len() <= s.len(),
        s.subrange(pos, pos + cs.len()) == enc_chars(cs),
    ensures
        dec_chars(s, pos, cs.len() as nat) == Some((cs, pos + cs.len())),
    decreases cs.len(),
{
    if cs.len() > 0 {
        lemma_enc_chars_len(cs);
        lemma_enc_chars_len(cs.drop_first());
        let c = cs[0];
        let w: u64 = (c as u32) as u64;
        assert(s[pos] == enc_chars(cs)[0]);
        assert(s[pos] == w);
        assert(is_scalar_word(w)) by {
            vstd::utf8::char_is_scalar(c);
        }
        assert(((w as u32)) as char == c) by {
            assert(w as u32 == c as u32);
            vstd::utf8::char_u32_cast(c, c as u32);
        }
        assert(s.subrange(pos + 1, pos + cs.len()) =~= enc_chars(cs.drop_first())) by {
            assert(forall|i: int|
                0 <= i < cs.len() - 1 ==> #[trigger] s.subrange(pos + 1, pos + cs.len())[i]
                    == enc_chars(cs)[i + 1]);
        }
        lemma_dec_chars_at(s, pos + 1, cs.drop_first());
        assert(seq![c] + cs.drop_first() =~= cs);
    }
}

proof fn lemma_dec_string_at(s: Seq<u64>, pos: int, cs: Seq<char>)
    requires
        0 <= pos,
        pos + 1 + cs.len() <= s.len(),
        cs.len() <= u64::MAX,
        s.subrange(pos, pos + 1 + cs.len()) == enc_string(cs),
    ensures
        dec_string(s, pos) == Some((cs, pos + 1 + cs.len())),
{
    lemma_enc_chars_len(cs);
    assert(s[pos] == enc_string(cs)[0]);
    assert(s[pos] == cs.len() as u64);
    assert(s.subrange(pos + 1, pos + 1 + cs.len()) =~= enc_chars(cs)) by {
        assert(forall|i: int|
            0 <= i < cs.len() ==> #[trigger] s.subrange(pos + 1, pos + 1 + cs.len())[i]
                == enc_string(cs)[i + 1]);
    }
    lemma_dec_chars_at(s, pos + 1, cs);
}

proof fn lemma_dec_handle_at(s: Seq<u64>, pos: int, h: Handle)
    requires
        0 <= pos,
        pos + 1 <= s.len(),
        s.subrange(pos, pos + 1) == enc_handle(h),
    ensures
        dec_handle(s, pos) == Some((h, pos + 1)),
{
    let w: u64 = (h.index as u64 + (h.generation as u64) * 0x1_0000_0000) as u64;
    assert(s[pos] == enc_handle(h)[0]);
    assert(w as int == h.index as int + (h.generation as int) * 0x1_0000_0000);
    assert(w as int % 0x1_0000_0000 == h.index as int) by (nonlinear_arith)
        requires
            w as int == h.index as int + (h.generation as int) * 0x1_0000_0000,
            0 <= (h.index as int) < 0x1_0000_0000,
            0 <= (h.generation as int),
    ;
    assert(w as int / 0x1_0000_0000 == h.generation as int) by (nonlinear_arith)
        requires
            w as int == h.index as int + (h.generation as int) * 0x1_0000_0000,
            0 <= (h.index as int) < 0x1_0000_0000,
            0 <= (h.generation as int),
    ;
}

proof fn lemma_dec_handles_at(s: Seq<u64>, pos: int, hs: Seq<Handle>)
    requires
        0 <= pos,
        pos + hs.len() <= s.len(),
        s.subrange(pos, pos + hs.len()) == enc_handles(hs),
    ensures
        dec_handles(s, pos, hs.len() as nat) == Some((hs, pos + hs.len())),
    decreases hs.len(),
{
    if hs.len() > 0 {
        lemma_enc_handles_len(hs);
        lemma_enc_handles_len(hs.drop_first());
        assert(s.subrange(pos, pos + 1) =~= enc_handle(hs[0])) by {
            assert(s[pos] == enc_handles(hs)[0]);
        }
        lemma_dec_handle_at(s, pos, hs[0]);
        assert(s.subrange(pos + 1, pos + hs.len()) =~= enc_handles(hs.drop_first())) by {
            assert(forall|i: int|
                0 <= i < hs.len() - 1 ==> #[trigger] s.subrange(pos + 1, pos + hs.len())[i]
                    == enc_handles(hs)[i + 1]);
        }
        lemma_dec_handles_at(s, pos + 1, hs.drop_first());
        assert(seq![hs[0]] + hs.drop_first() =~= hs);
    }
}

/// Serializing a node and reading the stream back yields the node again,
/// field for field — also with anything else following it in the stream.
pub proof fn lemma_node_round_trip_in(s: Seq<u64>, pos: int, d: NodeData)
    requires
        0 <= pos,
        d.name.len() <= u64::MAX,
        d.children.len() <= u64::MAX,
        pos + enc_node(d).len() <= s.len(),
        s.subrange(pos, pos + enc_node(d).len()) == enc_node(d),
    ensures
        dec_node(s, pos) == Some((d, pos + enc_node(d).len())),
{
    let e = enc_node(d);
    let nl = d.name.len() as int;
    let cl = d.children.len() as int;
    lemma_enc_chars_len(d.name);
    lemma_enc_handles_len(d.children);
    assert(e.len() == 1 + nl + 1 + 1 + 1 + 1 + cl);
    assert forall|i: int| 0 <= i < e.len() implies s[pos + i] == e[i] by {
        assert(s.subrange(pos, pos + e.len())[i] == s[pos + i]);
    }
    assert(s.subrange(pos, pos + 1 + nl) =~= enc_string(d.name)) by {
        assert(forall|i: int| 0 <= i < 1 + nl ==> e[i] == enc_string(d.name)[i]);
    }
    lemma_dec_string_at(s, pos, d.name);
    let p1 = pos + 1 + nl;
    assert(s[p1] == e[1 + nl]);
    assert(s[p1] == kind_tag(d.kind));
    assert(kind_of_tag(kind_tag(d.kind)) == Some(d.kind));
    let p2 = p1 + 1;
    assert(s[p2] == e[1 + nl + 1]);
    assert(s[p2] == (if d.is_resource_instance {
        1u64
    } else {
        0u64
    }));
    let p3 = p2 + 1;
    assert(s.subrange(p3, p3 + 1) =~= enc_handle(d.parent)) by {
        assert(s[p3] == e[1 + nl + 2]);
    }
    lemma_dec_handle_at(s, p3, d.parent);
    let p4 = p3 + 1;
    assert(s[p4] == e[1 + nl + 3]);
    assert(s[p4] == d.children.len() as u64);
    let p5 = p4 + 1;
    assert(s.subrange(p5, p5 + cl) =~= enc_handles(d.children)) by {
        assert(forall|i: int|
            0 <= i < cl ==> #[trigger] s.subrange(p5, p5 + cl)[i] == e[1 + nl + 4 + i]);
    }
    lemma_dec_handles_at(s, p5, d.children);
}

// ---------------------------------------------------------------------------
// The executable serializer
// ---------------------------------------------------------------------------
/// Relies on char::from_u32: yields the character for every Unicode scalar
/// value, and nothing for surrogates and values beyond the maximum.
#[verifier::external_body]
fn char_from_u32(u: u32) -> (r: Option<char>)
    ensures
        r == (if u < 0xD800 || (0xDFFF < u && u <= 0x10FFFF) {
            Some((u as char))
        } else {
            None::<char>
        }),
{
    char::from_u32(u)
}

/// Relies on String::push: appends exactly one character.
#[verifier::external_body]
fn push_char(s: &mut String, c: char)
    ensures
        final(s)@ == old(s)@.push(c),
{
    s.push(c);
}

proof fn lemma_enc_chars_snoc(cs: Seq<char>, c: char)
    ensures
        enc_chars(cs.push(c)) == enc_chars(cs) + seq![(c as u32) as u64],
    decreases cs.len(),
{
    if cs.len() == 0 {
        assert(cs.push(c)[0] == c);
        assert(cs.push(c).drop_first() =~= Seq::<char>::empty());
        assert(enc_chars(cs) =~= Seq::<u64>::empty());
        assert(enc_chars(cs.push(c).drop_first()) =~= Seq::<u64>::empty());
        assert(enc_chars(cs.push(c)) =~= enc_chars(cs) + seq![(c as u32) as u64]);
    } else {
        assert(cs.push(c)[0] == cs[0]);
        assert(cs.push(c).drop_first() =~= cs.drop_first().push(c));
        assert(enc_chars(cs.push(c).drop_first()) == enc_chars(cs.drop_first().push(c)));
        lemma_enc_chars_snoc(cs.drop_first(), c);
        lemma_enc_chars_len(cs);
        lemma_enc_chars_len(cs.drop_first());
        lemma_enc_chars_len(cs.push(c));
        assert(enc_chars(cs.push(c)) =~= enc_chars(cs) + seq![(c as u32) as u64]);
    }
}

proof fn lemma_enc_handles_snoc(hs: Seq<Handle>, h: Handle)
    ensures
        enc_handles(hs.push(h)) == enc_handles(hs) + enc_handle(h),
    decreases hs.len(),
{
    if hs.len() == 0 {
        assert(hs.push(h)[0] == h);
        assert(hs.push(h).drop_first() =~= Seq::<Handle>::empty());
        assert(enc_handles(hs) =~= Seq::<u64>::empty());
        assert(enc_handles(hs.push(h).drop_first()) =~= Seq::<u64>::empty());
        assert(enc_handles(hs.push(h)) =~= enc_handles(hs) + enc_handle(h));
    } else {
        assert(hs.push(h)[0] == hs[0]);
        assert(hs.push(h).drop_first() =~= hs.drop_first().push(h));
        assert(enc_handles(hs.push(h).drop_first()) == enc_handles(hs.drop_first().push(h)));
        lemma_enc_handles_snoc(hs.drop_first(), h);
        lemma_enc_handles_len(hs);
        lemma_enc_handles_len(hs.drop_first());
        lemma_enc_handles_len(hs.push(h));
        assert(enc_handles(hs.push(h)) =~= enc_handles(hs) + enc_handle(h));
    }
}

/// The packed word of a handle.
fn pack_handle(h: Handle) -> (w: u64)
    ensures
        seq![w] == enc_handle(h),
{
    h.index as u64 + (h.generation as u64) * 0x1_0000_0000
}

/// Writes a node onto the end of a word stream.
#[verifier::loop_isolation(false)]
#[verifier::rlimit(60)]
pub fn encode_node(n: &Node, out: &mut Vec<u64>)
    ensures
        final(out)@ == old(out)@ + enc_node(node_data(*n)),
{
    let name: &str = n.name.as_str();
    let name_len: usize = name.unicode_len();
    out.push(name_len as u64);
    let mut i: usize = 0;
    while i < name_len
        invariant
            0 <= i <= name_len,
            name_len == name@.len(),
            name@ == n.name@,
            out@ == old(out)@ + seq![name_len as u64] + enc_chars(name@.take(i as int)),
        decreases name_len - i,
    {
        let c = name.get_char(i);
        out.push((c as u32) as u64);
        proof {
            assert(name@.take(i + 1 as int) =~= name@.take(i as int).push(c));
            lemma_enc_chars_snoc(name@.take(i as int), c);
        }
        i = i + 1;
    }
    proof {
        assert(name@.take(name_len as int) =~= name@);
    }
    let tag: u64 = match n.kind {
        NodeKind::Base => 0,
        NodeKind::PointLight => 1,
        NodeKind::DirectionalLight => 2,
        NodeKind::SpotLight => 3,
        NodeKind::Joint => 4,
        NodeKind::Joint2d => 5,
        NodeKind::RigidBody => 6,
        NodeKind::RigidBody2d => 7,
        NodeKind::Collider => 8,
        NodeKind::Collider2d => 9,
        NodeKind::Sound => 10,
    };
    out.push(tag);
    out.push(
        if n.is_resource_instance {
            1
        } else {
            0
        },
    );
    out.push(pack_handle(n.parent));
    let child_count: usize = n.children.len();
    out.push(child_count as u64);
    let ghost mid = out@;
    let mut j: usize = 0;
    while j < child_count
        invariant
            0 <= j <= child_count,
            child_count == n.children@.len(),
            out@ == mid + enc_handles(n.children@.take(j as int)),
        decreases child_count - j,
    {
        out.push(pack_handle(n.children[j]));
        proof {
            assert(n.children@.take(j + 1 as int) =~= n.children@.take(j as int).push(
                n.children@[j as int],
            ));
            lemma_enc_handles_snoc(n.children@.take(j as int), n.children@[j as int]);
        }
        j = j + 1;
    }
    proof {
        assert(n.children@.take(child_count as int) =~= n.children@);
        assert(out@ =~= old(out)@ + enc_node(node_data(*n)));
    }
}

/// Reads one word, if any is left.
fn read_word(s: &Vec<u64>, pos: usize) -> (r: Option<(u64, usize)>)
    ensures
        match r {
            Some((w, np)) => dec_word(s@, pos as int) == Some((w, np as int)) && np == pos + 1,
            None => dec_word(s@, pos as int) is None,
        },
{
    if pos < s.len() {
        Some((s[pos], pos + 1))
    } else {
        None
    }
}

/// Reads a node back from a word stream. Yields the node and the position
/// after it, or nothing when the stream does not hold a node at `pos`.
#[verifier::loop_isolation(false)]
pub fn decode_node(s: &Vec<u64>, pos: usize) -> (r: Option<(Node, usize)>)
    ensures
        match r {
            Some((n, np)) => dec_node(s@, pos as int) == Some((node_data(n), np as int)),
            None => dec_node(s@, pos as int) is None,
        },
{
    let (name_len_w, p1) = match read_word(s, pos) {
        Some(x) => x,
        None => {
            return None;
        },
    };
    // Read `name_len_w` characters.
    let mut name = String::new();
    let mut remaining: u64 = name_len_w;
    let mut p: usize = p1;
    while remaining > 0
        invariant
            p1 <= p <= s@.len(),
            remaining <= name_len_w,
            match dec_chars(s@, p as int, remaining as nat) {
                Some((cs, end)) => dec_chars(s@, p1 as int, name_len_w as nat) == Some(
                    (name@ + cs, end),
                ),
                None => dec_chars(s@, p1 as int, name_len_w as nat) is None,
            },
        decreases remaining,
    {
        let (w, p2) = match read_word(s, p) {
            Some(x) => x,
            None => {
                return None;
            },
        };
        if !(w < 0xD800 || (0xDFFF < w && w <= 0x10FFFF)) {
            return None;
        }
        let c = match char_from_u32(w as u32) {
            Some(c) => c,
            None => vstd::pervasive::unreached(),
        };
        proof {
            assert((w as u32) as char == c);
        }
        let ghost before = name@;
        push_char(&mut name, c);
        proof {
            assert(name@ =~= before.push(c));
            assert forall|cs2: Seq<char>, end: int|
                dec_chars(s@, p2 as int, (remaining - 1) as nat) == Some::<(Seq<char>, int)>(
                    (cs2, end),
                ) implies before + (seq![c] + cs2) =~= name@ + cs2 by {}
        }
        p = p2;
        remaining = remaining - 1;
    }
    // The node kind.
    let (kw, p3) = match read_word(s, p) {
        Some(x) => x,
        None => {
            return None;
        },
    };
    let kind: NodeKind = if kw == 0 {
        NodeKind::Base
    } else if kw == 1 {
        NodeKind::PointLight
    } else if kw == 2 {
        NodeKind::DirectionalLight
    } else if kw == 3 {
        NodeKind::SpotLight
    } else if kw == 4 {
        NodeKind::Joint
    } else if kw == 5 {
        NodeKind::Joint2d
    } else if kw == 6 {
        NodeKind::RigidBody
    } else if kw == 7 {
        NodeKind::RigidBody2d
    } else if kw == 8 {
        NodeKind::Collider
    } else if kw == 9 {
        NodeKind::Collider2d
    } else if kw == 10 {
        NodeKind::Sound
    } else {
        return None;
    };
    // The instance flag.
    let (fw, p4) = match read_word(s, p3) {
        Some(x) => x,
        None => {
            return None;
        },
    };
    if fw > 1 {
        return None;
    }
    // The parent handle.
    let (pw, p5) = match read_word(s, p4) {
        Some(x) => x,
        None => {
            return None;
        },
    };
    let parent = Handle {
        index: (pw % 0x1_0000_0000) as u32,
        generation: (pw / 0x1_0000_0000) as u32,
    };
    // The children.
    let (cw, p6) = match read_word(s, p5) {
        Some(x) => x,
        None => {
            return None;
        },
    };
    let mut children: Vec<Handle> = Vec::new();
    let mut left: u64 = cw;
    let mut q: usize = p6;
    while left > 0
        invariant
            p6 <= q <= s@.len(),
            left <= cw,
            match dec_handles(s@, q as int, left as nat) {
                Some((hs, end)) => dec_handles(s@, p6 as int, cw as nat) == Some(
                    (children@ + hs, end),
                ),
                None => dec_handles(s@, p6 as int, cw as nat) is None,
            },
        decreases left,
    {
        let (hw, q2) = match read_word(s, q) {
            Some(x) => x,
            None => {
                return None;
            },
        };
        let h = Handle {
            index: (hw % 0x1_0000_0000) as u32,
            generation: (hw / 0x1_0000_0000) as u32,
        };
        let ghost before = children@;
        children.push(h);
        proof {
            assert forall|hs2: Seq<Handle>, end: int|
                dec_handles(s@, q2 as int, (left - 1) as nat) == Some::<(Seq<Handle>, int)>(
                    (hs2, end),
                ) implies before + (seq![h] + hs2) =~= children@ + hs2 by {}
        }
        q = q2;
        left = left - 1;
    }
    let node = Node { name, kind, is_resource_instance: fw == 1, parent, children };
    proof {
        assert(name@ + Seq::<char>::empty() =~= name@);
        assert(children@ + Seq::<Handle>::empty() =~= children@);
    }
    Some((node, q))
}

// ---------------------------------------------------------------------------
// Custom tile colliders
// ---------------------------------------------------------------------------
/// A signed coordinate as one word, by its two's-complement bit pattern.
pub open spec fn coord_word(x: i64) -> u64 {
    x as u64
}

pub open spec fn word_coord(w: u64) -> i64 {
    w as i64
}

proof fn lemma_coord_word_roundtrip(x: i64)
    ensures
        word_coord(coord_word(x)) == x,
{
    assert((x as u64) as i64 == x) by (bit_vector);
}

/// A vertex as two words.
pub open spec fn enc_vertices(vs: Seq<Vector2>) -> Seq<u64>
    decreases vs.len(),
{
    if vs.len() == 0 {
        Seq::empty()
    } else {
        seq![coord_word(vs[0].x), coord_word(vs[0].y)] + enc_vertices(vs.drop_first())
    }
}

pub open spec fn dec_vertices(s: Seq<u64>, pos: int, count: nat) -> Option<(Seq<Vector2>, int)>
    decreases count,
{
    if count == 0 {
        Some((Seq::empty(), pos))
    } else {
        match dec_word(s, pos) {
            None => None,
            Some((wx, p1)) => match dec_word(s, p1) {
                None => None,
                Some((wy, p2)) => match dec_vertices(s, p2, (count - 1) as nat) {
                    None => None,
                    Some((vs, p3)) => Some(
                        (seq![Vector2 { x: word_coord(wx), y: word_coord(wy) }] + vs, p3),
                    ),
                },
            },
        }
    }
}

/// A triangle as three words, one per corner index.
pub open spec fn enc_triangles(ts: Seq<Seq<u32>>) -> Seq<u64>
    decreases ts.len(),
{
    if ts.len() == 0 {
        Seq::empty()
    } else {
        seq![ts[0][0] as u64, ts[0][1] as u64, ts[0][2] as u64] + enc_triangles(ts.drop_first())
    }
}

pub open spec fn dec_triangles(s: Seq<u64>, pos: int, count: nat) -> Option<(Seq<Seq<u32>>, int)>
    decreases count,
{
    if count == 0 {
        Some((Seq::empty(), pos))
    } else {
        match dec_word(s, pos) {
            None => None,
            Some((wa, p1)) => match dec_word(s, p1) {
                None => None,
                Some((wb, p2)) => match dec_word(s, p2) {
                    None => None,
                    Some((wc, p3)) => if wa <= u32::MAX && wb <= u32::MAX && wc <= u32::MAX {
                        match dec_triangles(s, p3, (count - 1) as nat) {
                            None => None,
                            Some((ts, p4)) => Some(
                                (seq![seq![wa as u32, wb as u32, wc as u32]] + ts, p4),
                            ),
                        }
                    } else {
                        None
                    },
                },
            },
        }
    }
}

/// What a custom tile collider holds, as mathematical values.
pub struct ColliderData {
    pub vertices: Seq<Vector2>,
    pub triangles: Seq<Seq<u32>>,
}

pub open spec fn collider_data(c: CustomTileCollider) -> ColliderData {
    ColliderData { vertices: c.vertices@, triangles: c.spec_triangles() }
}

/// A collider's serialized form: the vertex list, then the triangle list,
/// each with its length first.
pub open spec fn enc_collider(d: ColliderData) -> Seq<u64> {
    seq![d.vertices.len() as u64] + enc_vertices(d.vertices) + seq![d.triangles.len() as u64]
        + enc_triangles(d.triangles)
}

pub open spec fn dec_collider(s: Seq<u64>, pos: int) -> Option<(ColliderData, int)> {
    match dec_word(s, pos) {
        None => None,
        Some((vc, p1)) => match dec_vertices(s, p1, vc as nat) {
            None => None,
            Some((vertices, p2)) => match dec_word(s, p2) {
                None => None,
                Some((tc, p3)) => match dec_triangles(s, p3, tc as nat) {
                    None => None,
                    Some((triangles, p4)) => Some((ColliderData { vertices, triangles }, p4)),
                },
            },
        },
    }
}

proof fn lemma_enc_vertices_len(vs: Seq<Vector2>)
    ensures
        enc_vertices(vs).len() == 2 * vs.len(),
    decreases vs.len(),
{
    if vs.len() > 0 {
        lemma_enc_vertices_len(vs.drop_first());
    }
}

proof fn lemma_enc_triangles_len(ts: Seq<Seq<u32>>)
    ensures
        enc_triangles(ts).len() == 3 * ts.len(),
    decreases ts.len(),
{
    if ts.len() > 0 {
        lemma_enc_triangles_len(ts.drop_first());
    }
}

proof fn lemma_dec_vertices_at(s: Seq<u64>, pos: int, vs: Seq<Vector2>)
    requires
        0 <= pos,
        pos + 2 * vs.len() <= s.len(),
        s.subrange(pos, pos + 2 * vs.len()) == enc_vertices(vs),
    ensures
        dec_vertices(s, pos, vs.len() as nat) == Some((vs, pos + 2 * vs.len())),
    decreases vs.len(),
{
    if vs.len() > 0 {
        lemma_enc_vertices_len(vs);
        lemma_enc_vertices_len(vs.drop_first());
        let v = vs[0];
        assert(s[pos] == enc_vertices(vs)[0]);
        assert(s[pos + 1] == enc_vertices(vs)[1]);
        lemma_coord_word_roundtrip(v.x);
        lemma_coord_word_roundtrip(v.y);
        assert(s.subrange(pos + 2, pos + 2 * vs.len()) =~= enc_vertices(vs.drop_first())) by {
            assert(forall|i: int|
                0 <= i < 2 * vs.len() - 2 ==> #[trigger] s.subrange(pos + 2, pos + 2 * vs.len())[i]
                    == enc_vertices(vs)[i + 2]);
        }
        lemma_dec_vertices_at(s, pos + 2, vs.drop_first());
        assert(seq![Vector2 { x: word_coord(coord_word(v.x)), y: word_coord(coord_word(v.y)) }]
            + vs.drop_first() =~= vs);
    }
}

proof fn lemma_dec_triangles_at(s: Seq<u64>, pos: int, ts: Seq<Seq<u32>>)
    requires
        0 <= pos,
        pos + 3 * ts.len() <= s.len(),
        s.subrange(pos, pos + 3 * ts.len()) == enc_triangles(ts),
        forall|i: int| 0 <= i < ts.len() ==> (#[trigger] ts[i]).len() == 3,
    ensures
        dec_triangles(s, pos, ts.len() as nat) == Some((ts, pos + 3 * ts.len())),
    decreases ts.len(),
{
    if ts.len() > 0 {
        lemma_enc_triangles_len(ts);
        lemma_enc_triangles_len(ts.drop_first());
        let t = ts[0];
        assert(s[pos] == enc_triangles(ts)[0]);
        assert(s[pos + 1] == enc_triangles(ts)[1]);
        assert(s[pos + 2] == enc_triangles(ts)[2]);
        assert(s.subrange(pos + 3, pos + 3 * ts.len()) =~= enc_triangles(ts.drop_first())) by {
            assert(forall|i: int|
                0 <= i < 3 * ts.len() - 3 ==> #[trigger] s.subrange(pos + 3, pos + 3 * ts.len())[i]
                    == enc_triangles(ts)[i + 3]);
        }
        lemma_dec_triangles_at(s, pos + 3, ts.drop_first());
        assert(seq![seq![(t[0] as u64) as u32, (t[1] as u64) as u32, (t[2] as u64) as u32]]
            + ts.drop_first() =~= ts) by {
            assert(seq![(t[0] as u64) as u32, (t[1] as u64) as u32, (t[2] as u64) as u32] =~= t);
        }
    }
}

/// Serializing a collider and reading the stream back yields it again, field
/// for field — also with anything else following it in the stream.
pub proof fn lemma_collider_round_trip_in(s: Seq<u64>, pos: int, d: ColliderData)
    requires
        0 <= pos,
        d.vertices.len() <= u64::MAX,
        d.triangles.len() <= u64::MAX,
        forall|i: int| 0 <= i < d.triangles.len() ==> (#[trigger] d.triangles[i]).len() == 3,
        pos + enc_collider(d).len() <= s.len(),
        s.subrange(pos, pos + enc_collider(d).len()) == enc_collider(d),
    ensures
        dec_collider(s, pos) == Some((d, pos + enc_collider(d).len())),
{
    let e = enc_collider(d);
    let vl = d.vertices.len() as int;
    let tl = d.triangles.len() as int;
    lemma_enc_vertices_len(d.vertices);
    lemma_enc_triangles_len(d.triangles);
    assert(e.len() == 1 + 2 * vl + 1 + 3 * tl);
    assert forall|i: int| 0 <= i < e.len() implies s[pos + i] == e[i] by {
        assert(s.subrange(pos, pos + e.len())[i] == s[pos + i]);
    }
    assert(s[pos] == e[0]);
    assert(s[pos] == d.vertices.len() as u64);
    let p1 = pos + 1;
    assert(s.subrange(p1, p1 + 2 * vl) =~= enc_vertices(d.vertices)) by {
        assert(forall|i: int|
            0 <= i < 2 * vl ==> #[trigger] s.subrange(p1, p1 + 2 * vl)[i] == e[1 + i]);
    }
    lemma_dec_vertices_at(s, p1, d.vertices);
    let p2 = p1 + 2 * vl;
    assert(s[p2] == e[1 + 2 * vl]);
    assert(s[p2] == d.triangles.len() as u64);
    let p3 = p2 + 1;
    assert(s.subrange(p3, p3 + 3 * tl) =~= enc_triangles(d.triangles)) by {
        assert(forall|i: int|
            0 <= i < 3 * tl ==> #[trigger] s.subrange(p3, p3 + 3 * tl)[i] == e[1 + 2 * vl + 1
                + i]);
    }
    lemma_dec_triangles_at(s, p3, d.triangles);
}

/// The round trip itself: a serialized collider, read alone, comes back
/// equal — the shader-facing side of the serializer's round-trip promise.
pub proof fn lemma_collider_round_trip(d: ColliderData)
    requires
        d.vertices.len() <= u64::MAX,
        d.triangles.len() <= u64::MAX,
        forall|i: int| 0 <= i < d.triangles.len() ==> (#[trigger] d.triangles[i]).len() == 3,
    ensures
        dec_collider(enc_collider(d), 0) == Some((d, enc_collider(d).len() as int)),
{
    assert(enc_collider(d).subrange(0, enc_collider(d).len() as int) =~= enc_collider(d));
    lemma_collider_round_trip_in(enc_collider(d), 0, d);
}

proof fn lemma_enc_vertices_snoc(vs: Seq<Vector2>, v: Vector2)
    ensures
        enc_vertices(vs.push(v)) == enc_vertices(vs) + seq![coord_word(v.x), coord_word(v.y)],
    decreases vs.len(),
{
    if vs.len() == 0 {
        assert(vs.push(v)[0] == v);
        assert(vs.push(v).drop_first() =~= Seq::<Vector2>::empty());
        assert(enc_vertices(vs) =~= Seq::<u64>::empty());
        assert(enc_vertices(vs.push(v).drop_first()) =~= Seq::<u64>::empty());
        assert(enc_vertices(vs.push(v)) =~= enc_vertices(vs) + seq![
            coord_word(v.x),
            coord_word(v.y),
        ]);
    } else {
        assert(vs.push(v)[0] == vs[0]);
        assert(vs.push(v).drop_first() =~= vs.drop_first().push(v));
        assert(enc_vertices(vs.push(v).drop_first()) == enc_vertices(vs.drop_first().push(v)));
        lemma_enc_vertices_snoc(vs.drop_first(), v);
        lemma_enc_vertices_len(vs);
        lemma_enc_vertices_len(vs.drop_first());
        lemma_enc_vertices_len(vs.push(v));
        assert(enc_vertices(vs.push(v)) =~= enc_vertices(vs) + seq![
            coord_word(v.x),
            coord_word(v.y),
        ]);
    }
}

proof fn lemma_enc_triangles_snoc(ts: Seq<Seq<u32>>, t: Seq<u32>)
    ensures
        enc_triangles(ts.push(t)) == enc_triangles(ts) + seq![
            t[0] as u64,
            t[1] as u64,
            t[2] as u64,
        ],
    decreases ts.len(),
{
    if ts.len() == 0 {
        assert(ts.push(t)[0] == t);
        assert(ts.push(t).drop_first() =~= Seq::<Seq<u32>>::empty());
        assert(enc_triangles(ts) =~= Seq::<u64>::empty());
        assert(enc_triangles(ts.push(t).drop_first()) =~= Seq::<u64>::empty());
        assert(enc_triangles(ts.push(t)) =~= enc_triangles(ts) + seq![
            t[0] as u64,
            t[1] as u64,
            t[2] as u64,
        ]);
    } else {
        assert(ts.push(t)[0] == ts[0]);
        assert(ts.push(t).drop_first() =~= ts.drop_first().push(t));
        assert(enc_triangles(ts.push(t).drop_first()) == enc_triangles(ts.drop_first().push(t)));
        lemma_enc_triangles_snoc(ts.drop_first(), t);
        lemma_enc_triangles_len(ts);
        lemma_enc_triangles_len(ts.drop_first());
        lemma_enc_triangles_len(ts.push(t));
        assert(enc_triangles(ts.push(t)) =~= enc_triangles(ts) + seq![
            t[0] as u64,
            t[1] as u64,
            t[2] as u64,
        ]);
    }
}

/// Writes a collider onto the end of a word stream.
#[verifier::loop_isolation(false)]
#[verifier::rlimit(60)]
pub fn encode_collider(c: &CustomTileCollider, out: &mut Vec<u64>)
    ensures
        final(out)@ == old(out)@ + enc_collider(collider_data(*c)),
{
    let vcount: usize = c.vertices.len();
    out.push(vcount as u64);
    let ghost start_verts = out@;
    let mut i: usize = 0;
    while i < vcount
        invariant
            0 <= i <= vcount,
            vcount == c.vertices@.len(),
            out@ == start_verts + enc_vertices(c.vertices@.take(i as int)),
        decreases vcount - i,
    {
        let v = c.vertices[i];
        out.push(#[verifier::truncate] (v.x as u64));
        out.push(#[verifier::truncate] (v.y as u64));
        proof {
            assert(c.vertices@.take(i + 1 as int) =~= c.vertices@.take(i as int).push(v));
            lemma_enc_vertices_snoc(c.vertices@.take(i as int), v);
        }
        i = i + 1;
    }
    proof {
        assert(c.vertices@.take(vcount as int) =~= c.vertices@);
    }
    let tcount: usize = c.triangles.len();
    out.push(tcount as u64);
    let ghost start_tris = out@;
    let mut j: usize = 0;
    while j < tcount
        invariant
            0 <= j <= tcount,
            tcount == c.triangles@.len(),
            out@ == start_tris + enc_triangles(c.spec_triangles().take(j as int)),
        decreases tcount - j,
    {
        let t = &c.triangles[j];
        out.push(t.0[0] as u64);
        out.push(t.0[1] as u64);
        out.push(t.0[2] as u64);
        proof {
            assert(c.spec_triangles()[j as int] == c.triangles@[j as int].idxs());
            assert(c.spec_triangles().take(j + 1 as int) =~= c.spec_triangles().take(
                j as int,
            ).push(c.triangles@[j as int].idxs()));
            lemma_enc_triangles_snoc(
                c.spec_triangles().take(j as int),
                c.triangles@[j as int].idxs(),
            );
        }
        j = j + 1;
    }
    proof {
        assert(c.spec_triangles().take(tcount as int) =~= c.spec_triangles());
        assert(out@ =~= old(out)@ + enc_collider(collider_data(*c)));
    }
}

/// Reads a collider back from a word stream. Yields the collider and the
/// position after it, or nothing when the stream does not hold one at `pos`.
#[verifier::loop_isolation(false)]
pub fn decode_collider(s: &Vec<u64>, pos: usize) -> (r: Option<(CustomTileCollider, usize)>)
    ensures
        match r {
            Some((c, np)) => dec_collider(s@, pos as int) == Some((collider_data(c), np as int)),
            None => dec_collider(s@, pos as int) is None,
        },
{
    let (vcw, p1) = match read_word(s, pos) {
        Some(x) => x,
        None => {
            return None;
        },
    };
    let mut vertices: Vec<Vector2> = Vec::new();
    let mut left: u64 = vcw;
    let mut p: usize = p1;
    while left > 0
        invariant
            p1 <= p <= s@.len(),
            left <= vcw,
            match dec_vertices(s@, p as int, left as nat) {
                Some((vs, end)) => dec_vertices(s@, p1 as int, vcw as nat) == Some(
                    (vertices@ + vs, end),
                ),
                None => dec_vertices(s@, p1 as int, vcw as nat) is None,
            },
        decreases left,
    {
        let (wx, q1) = match read_word(s, p) {
            Some(x) => x,
            None => {
                return None;
            },
        };
        let (wy, q2) = match read_word(s, q1) {
            Some(x) => x,
            None => {
                return None;
            },
        };
        let v = Vector2 {
            x: #[verifier::truncate] (wx as i64),
            y: #[verifier::truncate] (wy as i64),
        };
        let ghost before = vertices@;
        vertices.push(v);
        proof {
            assert forall|vs2: Seq<Vector2>, end: int|
                dec_vertices(s@, q2 as int, (left - 1) as nat) == Some::<(Seq<Vector2>, int)>(
                    (vs2, end),
                ) implies before + (seq![v] + vs2) =~= vertices@ + vs2 by {}
        }
        p = q2;
        left = left - 1;
    }
    let (tcw, p2) = match read_word(s, p) {
        Some(x) => x,
        None => {
            return None;
        },
    };
    let mut triangles: Vec<TriangleDefinition> = Vec::new();
    let mut tleft: u64 = tcw;
    let mut q: usize = p2;
    while tleft > 0
        invariant
            p2 <= q <= s@.len(),
            tleft <= tcw,
            match dec_triangles(s@, q as int, tleft as nat) {
                Some((ts, end)) => dec_triangles(s@, p2 as int, tcw as nat) == Some(
                    (triangles@.map_values(|t: TriangleDefinition| t.idxs()) + ts, end),
                ),
                None => dec_triangles(s@, p2 as int, tcw as nat) is None,
            },
        decreases tleft,
    {
        let (wa, r1) = match read_word(s, q) {
            Some(x) => x,
            None => {
                return None;
            },
        };
        let (wb, r2) = match read_word(s, r1) {
            Some(x) => x,
            None => {
                return None;
            },
        };
        let (wc, r3) = match read_word(s, r2) {
            Some(x) => x,
            None => {
                return None;
            },
        };
        if wa > u32::MAX as u64 || wb > u32::MAX as u64 || wc > u32::MAX as u64 {
            return None;
        }
        let t = TriangleDefinition([wa as u32, wb as u32, wc as u32]);
        let ghost before = triangles@.map_values(|t: TriangleDefinition| t.idxs());
        triangles.push(t);
        proof {
            assert(t.idxs() =~= seq![wa as u32, wb as u32, wc as u32]);
            assert(triangles@.map_values(|t: TriangleDefinition| t.idxs()) =~= before.push(
                t.idxs(),
            ));
            assert forall|ts2: Seq<Seq<u32>>, end: int|
                dec_triangles(s@, r3 as int, (tleft - 1) as nat) == Some::<(Seq<Seq<u32>>, int)>(
                    (ts2, end),
                ) implies before + (seq![t.idxs()] + ts2) =~= before.push(t.idxs()) + ts2 by {}
        }
        q = r3;
        tleft = tleft - 1;
    }
    let c = CustomTileCollider { vertices, triangles };
    proof {
        assert(vertices@ + Seq::<Vector2>::empty() =~= vertices@);
        assert(c.spec_triangles() + Seq::<Seq<u32>>::empty() =~= c.spec_triangles());
    }
    Some((c, q))
}

// ---------------------------------------------------------------------------
// Shader resource definitions
// ---------------------------------------------------------------------------
// A property kind is serialized as a tag word, a payload length, and the
// payload words; the mappings between payloads and values are stated below
// and inverted by `lemma_kind_words_roundtrip`.
/// What a property kind holds, as mathematical values; matrix variants carry
/// their entry rows directly.
pub enum PropertyKindData {
    Float(u32),
    FloatArray { value: Seq<u32>, max_len: usize },
    Int(i32),
    IntArray { value: Seq<i32>, max_len: usize },
    UInt(u32),
    UIntArray { value: Seq<u32>, max_len: usize },
    Bool(bool),
    Vector2(Vec2Bits),
    Vector2Array { value: Seq<Vec2Bits>, max_len: usize },
    Vector3(Vec3Bits),
    Vector3Array { value: Seq<Vec3Bits>, max_len: usize },
    Vector4(Vec4Bits),
    Vector4Array { value: Seq<Vec4Bits>, max_len: usize },
    Matrix2(Seq<u32>),
    Matrix2Array { value: Seq<Seq<u32>>, max_len: usize },
    Matrix3(Seq<u32>),
    Matrix3Array { value: Seq<Seq<u32>>, max_len: usize },
    Matrix4(Seq<u32>),
    Matrix4Array { value: Seq<Seq<u32>>, max_len: usize },
    Color { r: u8, g: u8, b: u8, a: u8 },
}

pub open spec fn kind_data(k: ShaderPropertyKind) -> PropertyKindData {
    match k {
        ShaderPropertyKind::Float(v) => PropertyKindData::Float(v),
        ShaderPropertyKind::FloatArray { value, max_len } => PropertyKindData::FloatArray {
            value: value@,
            max_len,
        },
        ShaderPropertyKind::Int(v) => PropertyKindData::Int(v),
        ShaderPropertyKind::IntArray { value, max_len } => PropertyKindData::IntArray {
            value: value@,
            max_len,
        },
        ShaderPropertyKind::UInt(v) => PropertyKindData::UInt(v),
        ShaderPropertyKind::UIntArray { value, max_len } => PropertyKindData::UIntArray {
            value: value@,
            max_len,
        },
        ShaderPropertyKind::Bool(v) => PropertyKindData::Bool(v),
        ShaderPropertyKind::Vector2(v) => PropertyKindData::Vector2(v),
        ShaderPropertyKind::Vector2Array { value, max_len } => PropertyKindData::Vector2Array {
            value: value@,
            max_len,
        },
        ShaderPropertyKind::Vector3(v) => PropertyKindData::Vector3(v),
        ShaderPropertyKind::Vector3Array { value, max_len } => PropertyKindData::Vector3Array {
            value: value@,
            max_len,
        },
        ShaderPropertyKind::Vector4(v) => PropertyKindData::Vector4(v),
        ShaderPropertyKind::Vector4Array { value, max_len } => PropertyKindData::Vector4Array {
            value: value@,
            max_len,
        },
        ShaderPropertyKind::Matrix2(m) => PropertyKindData::Matrix2(m.entries@),
        ShaderPropertyKind::Matrix2Array { value, max_len } => PropertyKindData::Matrix2Array {
            value: value@.map_values(|m: MatrixBits| m.entries@),
            max_len,
        },
        ShaderPropertyKind::Matrix3(m) => PropertyKindData::Matrix3(m.entries@),
        ShaderPropertyKind::Matrix3Array { value, max_len } => PropertyKindData::Matrix3Array {
            value: value@.map_values(|m: MatrixBits| m.entries@),
            max_len,
        },
        ShaderPropertyKind::Matrix4(m) => PropertyKindData::Matrix4(m.entries@),
        ShaderPropertyKind::Matrix4Array { value, max_len } => PropertyKindData::Matrix4Array {
            value: value@.map_values(|m: MatrixBits| m.entries@),
            max_len,
        },
        ShaderPropertyKind::Color { r, g, b, a } => PropertyKindData::Color { r, g, b, a },
    }
}

/// The shape invariant the codec needs, mirrored onto the view: matrices
/// carry exactly their dimension's entries.
pub open spec fn kind_data_wf(d: PropertyKindData) -> bool {
    match d {
        PropertyKindData::Matrix2(e) => e.len() == 4,
        PropertyKindData::Matrix2Array { value, .. } => forall|i: int|
            0 <= i < value.len() ==> (#[trigger] value[i]).len() == 4,
        PropertyKindData::Matrix3(e) => e.len() == 9,
        PropertyKindData::Matrix3Array { value, .. } => forall|i: int|
            0 <= i < value.len() ==> (#[trigger] value[i]).len() == 9,
        PropertyKindData::Matrix4(e) => e.len() == 16,
        PropertyKindData::Matrix4Array { value, .. } => forall|i: int|
            0 <= i < value.len() ==> (#[trigger] value[i]).len() == 16,
        _ => true,
    }
}

pub open spec fn u32s_words(v: Seq<u32>) -> Seq<u64> {
    Seq::new(v.len(), |i: int| v[i] as u64)
}

pub open spec fn words_u32s(w: Seq<u64>) -> Seq<u32> {
    Seq::new(w.len(), |i: int| w[i] as u32)
}

pub open spec fn words_in_u32(w: Seq<u64>) -> bool {
    forall|i: int| 0 <= i < w.len() ==> (#[trigger] w[i]) <= u32::MAX
}

/// A signed 32-bit value shifted into the non-negative range.
pub open spec fn i32_word(x: i32) -> u64 {
    (x as int + 0x8000_0000) as u64
}

pub open spec fn word_i32(w: u64) -> i32 {
    (w as int - 0x8000_0000) as i32
}

pub open spec fn i32s_words(v: Seq<i32>) -> Seq<u64> {
    Seq::new(v.len(), |i: int| i32_word(v[i]))
}

pub open spec fn words_i32s(w: Seq<u64>) -> Seq<i32> {
    Seq::new(w.len(), |i: int| word_i32(w[i]))
}

/// Rows of `width` entries each, flattened into one word sequence.
pub open spec fn rows_words(v: Seq<Seq<u32>>, width: int) -> Seq<u64> {
    Seq::new((width * v.len()) as nat, |j: int| v[j / width][j % width] as u64)
}

/// The inverse grouping of a flat word sequence into rows of `width`.
pub open spec fn words_rows(w: Seq<u64>, width: int) -> Seq<Seq<u32>> {
    Seq::new(
        (w.len() as int / width) as nat,
        |i: int| Seq::new(width as nat, |k: int| w[width * i + k] as u32),
    )
}

proof fn lemma_rows_roundtrip(v: Seq<Seq<u32>>, width: int)
    requires
        width > 0,
        forall|i: int| 0 <= i < v.len() ==> (#[trigger] v[i]).len() == width,
    ensures
        words_rows(rows_words(v, width), width) =~~= v,
        rows_words(v, width).len() == width * v.len(),
        words_in_u32(rows_words(v, width)),
{
    let w = rows_words(v, width);
    assert(w.len() as int / width == v.len()) by (nonlinear_arith)
        requires
            width > 0,
            w.len() == width * v.len(),
            v.len() >= 0,
    ;
    assert forall|i: int| 0 <= i < v.len() implies words_rows(w, width)[i] =~= v[i] by {
        assert forall|k: int| 0 <= k < width implies w[width * i + k] == v[i][k] as u64 by {
            let j = width * i + k;
            assert(0 <= j < width * v.len()) by (nonlinear_arith)
                requires
                    width > 0,
                    0 <= i < v.len(),
                    0 <= k < width,
                    j == width * i + k,
            ;
            assert(j / width == i && j % width == k) by (nonlinear_arith)
                requires
                    width > 0,
                    0 <= k < width,
                    i >= 0,
                    j == width * i + k,
            ;
        }
    }
}

pub open spec fn vec2_row(v: Vec2Bits) -> Seq<u32> {
    seq![v.x, v.y]
}

pub open spec fn vec3_row(v: Vec3Bits) -> Seq<u32> {
    seq![v.x, v.y, v.z]
}

pub open spec fn vec4_row(v: Vec4Bits) -> Seq<u32> {
    seq![v.x, v.y, v.z, v.w]
}

pub open spec fn row_vec2(r: Seq<u32>) -> Vec2Bits {
    Vec2Bits { x: r[0], y: r[1] }
}

pub open spec fn row_vec3(r: Seq<u32>) -> Vec3Bits {
    Vec3Bits { x: r[0], y: r[1], z: r[2] }
}

pub open spec fn row_vec4(r: Seq<u32>) -> Vec4Bits {
    Vec4Bits { x: r[0], y: r[1], z: r[2], w: r[3] }
}

/// The serialized tag of each property kind.
pub open spec fn kind_tag_of(d: PropertyKindData) -> u64 {
    match d {
        PropertyKindData::Float(..) => 0,
        PropertyKindData::FloatArray { .. } => 1,
        PropertyKindData::Int(..) => 2,
        PropertyKindData::IntArray { .. } => 3,
        PropertyKindData::UInt(..) => 4,
        PropertyKindData::UIntArray { .. } => 5,
        PropertyKindData::Bool(..) => 6,
        PropertyKindData::Vector2(..) => 7,
        PropertyKindData::Vector2Array { .. } => 8,
        PropertyKindData::Vector3(..) => 9,
        PropertyKindData::Vector3Array { .. } => 10,
        PropertyKindData::Vector4(..) => 11,
        PropertyKindData::Vector4Array { .. } => 12,
        PropertyKindData::Matrix2(..) => 13,
        PropertyKindData::Matrix2Array { .. } => 14,
        PropertyKindData::Matrix3(..) => 15,
        PropertyKindData::Matrix3Array { .. } => 16,
        PropertyKindData::Matrix4(..) => 17,
        PropertyKindData::Matrix4Array { .. } => 18,
        PropertyKindData::Color { .. } => 19,
    }
}

/// The payload words of each property kind: scalars and fixed shapes as-is,
/// arrays as their capacity bound followed by their flattened entries.
pub open spec fn kind_words(d: PropertyKindData) -> Seq<u64> {
    match d {
        PropertyKindData::Float(v) => seq![v as u64],
        PropertyKindData::FloatArray { value, max_len } => seq![max_len as u64] + u32s_words(
            value,
        ),
        PropertyKindData::Int(v) => seq![i32_word(v)],
        PropertyKindData::IntArray { value, max_len } => seq![max_len as u64] + i32s_words(value),
        PropertyKindData::UInt(v) => seq![v as u64],
        PropertyKindData::UIntArray { value, max_len } => seq![max_len as u64] + u32s_words(value),
        PropertyKindData::Bool(v) => seq![
            if v {
                1u64
            } else {
                0u64
            },
        ],
        PropertyKindData::Vector2(v) => u32s_words(vec2_row(v)),
        PropertyKindData::Vector2Array { value, max_len } => seq![max_len as u64] + rows_words(
            value.map_values(|v: Vec2Bits| vec2_row(v)),
            2,
        ),
        PropertyKindData::Vector3(v) => u32s_words(vec3_row(v)),
        PropertyKindData::Vector3Array { value, max_len } => seq![max_len as u64] + rows_words(
            value.map_values(|v: Vec3Bits| vec3_row(v)),
            3,
        ),
        PropertyKindData::Vector4(v) => u32s_words(vec4_row(v)),
        PropertyKindData::Vector4Array { value, max_len } => seq![max_len as u64] + rows_words(
            value.map_values(|v: Vec4Bits| vec4_row(v)),
            4,
        ),
        PropertyKindData::Matrix2(e) => u32s_words(e),
        PropertyKindData::Matrix2Array { value, max_len } => seq![max_len as u64] + rows_words(
            value,
            4,
        ),
        PropertyKindData::Matrix3(e) => u32s_words(e),
        PropertyKindData::Matrix3Array { value, max_len } => seq![max_len as u64] + rows_words(
            value,
            9,
        ),
        PropertyKindData::Matrix4(e) => u32s_words(e),
        PropertyKindData::Matrix4Array { value, max_len } => seq![max_len as u64] + rows_words(
            value,
            16,
        ),
        PropertyKindData::Color { r, g, b, a } => seq![r as u64, g as u64, b as u64, a as u64],
    }
}

/// Reads a payload back under its tag; anything malformed reads as nothing.
pub open spec fn words_to_kind(tag: u64, w: Seq<u64>) -> Option<PropertyKindData> {
    if tag == 0 {
        if w.len() == 1 && w[0] <= u32::MAX {
            Some(PropertyKindData::Float(w[0] as u32))
        } else {
            None
        }
    } else if tag == 1 {
        if w.len() >= 1 && w[0] <= usize::MAX && words_in_u32(w.skip(1)) {
            Some(
                PropertyKindData::FloatArray {
                    value: words_u32s(w.skip(1)),
                    max_len: w[0] as usize,
                },
            )
        } else {
            None
        }
    } else if tag == 2 {
        if w.len() == 1 && w[0] <= u32::MAX {
            Some(PropertyKindData::Int(word_i32(w[0])))
        } else {
            None
        }
    } else if tag == 3 {
        if w.len() >= 1 && w[0] <= usize::MAX && words_in_u32(w.skip(1)) {
            Some(
                PropertyKindData::IntArray { value: words_i32s(w.skip(1)), max_len: w[0] as usize },
            )
        } else {
            None
        }
    } else if tag == 4 {
        if w.len() == 1 && w[0] <= u32::MAX {
            Some(PropertyKindData::UInt(w[0] as u32))
        } else {
            None
        }
    } else if tag == 5 {
        if w.len() >= 1 && w[0] <= usize::MAX && words_in_u32(w.skip(1)) {
            Some(
                PropertyKindData::UIntArray { value: words_u32s(w.skip(1)), max_len: w[0] as usize },
            )
        } else {
            None
        }
    } else if tag == 6 {
        if w.len() == 1 && w[0] <= 1 {
            Some(PropertyKindData::Bool(w[0] == 1))
        } else {
            None
        }
    } else if tag == 7 {
        if w.len() == 2 && words_in_u32(w) {
            Some(PropertyKindData::Vector2(row_vec2(words_u32s(w))))
        } else {
            None
        }
    } else if tag == 8 {
        if w.len() >= 1 && w[0] <= usize::MAX && words_in_u32(w.skip(1)) && (w.len() - 1) % 2
            == 0 {
            Some(
                PropertyKindData::Vector2Array {
                    value: words_rows(w.skip(1), 2).map_values(|r: Seq<u32>| row_vec2(r)),
                    max_len: w[0] as usize,
                },
            )
        } else {
            None
        }
    } else if tag == 9 {
        if w.len() == 3 && words_in_u32(w) {
            Some(PropertyKindData::Vector3(row_vec3(words_u32s(w))))
        } else {
            None
        }
    } else if tag == 10 {
        if w.len() >= 1 && w[0] <= usize::MAX && words_in_u32(w.skip(1)) && (w.len() - 1) % 3
            == 0 {
            Some(
                PropertyKindData::Vector3Array {
                    value: words_rows(w.skip(1), 3).map_values(|r: Seq<u32>| row_vec3(r)),
                    max_len: w[0] as usize,
                },
            )
        } else {
            None
        }
    } else if tag == 11 {
        if w.len() == 4 && words_in_u32(w) {
            Some(PropertyKindData::Vector4(row_vec4(words_u32s(w))))
        } else {
            None
        }
    } else if tag == 12 {
        if w.len() >= 1 && w[0] <= usize::MAX && words_in_u32(w.skip(1)) && (w.len() - 1) % 4
            == 0 {
            Some(
                PropertyKindData::Vector4Array {
                    value: words_rows(w.skip(1), 4).map_values(|r: Seq<u32>| row_vec4(r)),
                    max_len: w[0] as usize,
                },
            )
        } else {
            None
        }
    } else if tag == 13 {
        if w.len() == 4 && words_in_u32(w) {
            Some(PropertyKindData::Matrix2(words_u32s(w)))
        } else {
            None
        }
    } else if tag == 14 {
        if w.len() >= 1 && w[0] <= usize::MAX && words_in_u32(w.skip(1)) && (w.len() - 1) % 4
            == 0 {
            Some(
                PropertyKindData::Matrix2Array {
                    value: words_rows(w.skip(1), 4),
                    max_len: w[0] as usize,
                },
            )
        } else {
            None
        }
    } else if tag == 15 {
        if w.len() == 9 && words_in_u32(w) {
            Some(PropertyKindData::Matrix3(words_u32s(w)))
        } else {
            None
        }
    } else if tag == 16 {
        if w.len() >= 1 && w[0] <= usize::MAX && words_in_u32(w.skip(1)) && (w.len() - 1) % 9
            == 0 {
            Some(
                PropertyKindData::Matrix3Array {
                    value: words_rows(w.skip(1), 9),
                    max_len: w[0] as usize,
                },
            )
        } else {
            None
        }
    } else if tag == 17 {
        if w.len() == 16 && words_in_u32(w) {
            Some(PropertyKindData::Matrix4(words_u32s(w)))
        } else {
            None
        }
    } else if tag == 18 {
        if w.len() >= 1 && w[0] <= usize::MAX && words_in_u32(w.skip(1)) && (w.len() - 1) % 16
            == 0 {
            Some(
                PropertyKindData::Matrix4Array {
                    value: words_rows(w.skip(1), 16),
                    max_len: w[0] as usize,
                },
            )
        } else {
            None
        }
    } else if tag == 19 {
        if w.len() == 4 && w[0] <= 255 && w[1] <= 255 && w[2] <= 255 && w[3] <= 255 {
            Some(
                PropertyKindData::Color {
                    r: w[0] as u8,
                    g: w[1] as u8,
                    b: w[2] as u8,
                    a: w[3] as u8,
                },
            )
        } else {
            None
        }
    } else {
        None
    }
}

/// Every payload reads back as the kind it was written from.
#[verifier::rlimit(100)]
#[verifier::spinoff_prover]
proof fn lemma_kind_words_roundtrip(d: PropertyKindData)
    requires
        kind_data_wf(d),
    ensures
        words_to_kind(kind_tag_of(d), kind_words(d)) == Some(d),
{
    let w = kind_words(d);
    match d {
        PropertyKindData::Float(v) => {},
        PropertyKindData::FloatArray { value, max_len } => {
            assert(w.skip(1) =~= u32s_words(value));
            assert(words_u32s(w.skip(1)) =~= value);
        },
        PropertyKindData::Int(v) => {},
        PropertyKindData::IntArray { value, max_len } => {
            assert(w.skip(1) =~= i32s_words(value));
            assert(words_i32s(w.skip(1)) =~= value);
        },
        PropertyKindData::UInt(v) => {},
        PropertyKindData::UIntArray { value, max_len } => {
            assert(w.skip(1) =~= u32s_words(value));
            assert(words_u32s(w.skip(1)) =~= value);
        },
        PropertyKindData::Bool(v) => {},
        PropertyKindData::Vector2(v) => {
            assert(words_u32s(w) =~= vec2_row(v));
        },
        PropertyKindData::Vector2Array { value, max_len } => {
            let rows = value.map_values(|v: Vec2Bits| vec2_row(v));
            lemma_rows_roundtrip(rows, 2);
            assert(w.skip(1) =~= rows_words(rows, 2));
            assert((w.len() - 1) % 2 == 0) by (nonlinear_arith)
                requires
                    w.len() - 1 == 2 * value.len(),
                    value.len() >= 0,
            ;
            assert(words_rows(w.skip(1), 2).map_values(|r: Seq<u32>| row_vec2(r)) =~= value);
        },
        PropertyKindData::Vector3(v) => {
            assert(words_u32s(w) =~= vec3_row(v));
        },
        PropertyKindData::Vector3Array { value, max_len } => {
            let rows = value.map_values(|v: Vec3Bits| vec3_row(v));
            lemma_rows_roundtrip(rows, 3);
            assert(w.skip(1) =~= rows_words(rows, 3));
            assert((w.len() - 1) % 3 == 0) by (nonlinear_arith)
                requires
                    w.len() - 1 == 3 * value.len(),
                    value.len() >= 0,
            ;
            assert(words_rows(w.skip(1), 3).map_values(|r: Seq<u32>| row_vec3(r)) =~= value);
        },
        PropertyKindData::Vector4(v) => {
            assert(words_u32s(w) =~= vec4_row(v));
        },
        PropertyKindData::Vector4Array { value, max_len } => {
            let rows = value.map_values(|v: Vec4Bits| vec4_row(v));
            lemma_rows_roundtrip(rows, 4);
            assert(w.skip(1) =~= rows_words(rows, 4));
            assert((w.len() - 1) % 4 == 0) by (nonlinear_arith)
                requires
                    w.len() - 1 == 4 * value.len(),
                    value.len() >= 0,
            ;
            assert(words_rows(w.skip(1), 4).map_values(|r: Seq<u32>| row_vec4(r)) =~= value);
        },
        PropertyKindData::Matrix2(e) => {
            assert(words_u32s(w) =~= e);
        },
        PropertyKindData::Matrix2Array { value, max_len } => {
            lemma_rows_roundtrip(value, 4);
            assert(w.skip(1) =~= rows_words(value, 4));
            assert((w.len() - 1) % 4 == 0) by (nonlinear_arith)
                requires
                    w.len() - 1 == 4 * value.len(),
                    value.len() >= 0,
            ;
            assert(words_rows(w.skip(1), 4) =~~= value);
        },
        PropertyKindData::Matrix3(e) => {
            assert(words_u32s(w) =~= e);
        },
        PropertyKindData::Matrix3Array { value, max_len } => {
            lemma_rows_roundtrip(value, 9);
            assert(w.skip(1) =~= rows_words(value, 9));
            assert((w.len() - 1) % 9 == 0) by (nonlinear_arith)
                requires
                    w.len() - 1 == 9 * value.len(),
                    value.len() >= 0,
            ;
            assert(words_rows(w.skip(1), 9) =~~= value);
        },
        PropertyKindData::Matrix4(e) => {
            assert(words_u32s(w) =~= e);
        },
        PropertyKindData::Matrix4Array { value, max_len } => {
            lemma_rows_roundtrip(value, 16);
            assert(w.skip(1) =~= rows_words(value, 16));
            assert((w.len() - 1) % 16 == 0) by (nonlinear_arith)
                requires
                    w.len() - 1 == 16 * value.len(),
                    value.len() >= 0,
            ;
            assert(words_rows(w.skip(1), 16) =~~= value);
        },
        PropertyKindData::Color { r, g, b, a } => {},
    }
}

/// What a named property holds, as mathematical values.
pub struct PropData {
    pub name: Seq<char>,
    pub kind: PropertyKindData,
}

pub open spec fn prop_data(p: ShaderProperty) -> PropData {
    PropData { name: p.name@, kind: kind_data(p.kind) }
}

/// What a resource binds, as mathematical values.
pub enum ResKindData {
    Texture { kind: SamplerKind, fallback: SamplerFallback },
    Group(Seq<PropData>),
}

pub open spec fn reskind_data(k: ShaderResourceKind) -> ResKindData {
    match k {
        ShaderResourceKind::Texture { kind, fallback } => ResKindData::Texture { kind, fallback },
        ShaderResourceKind::PropertyGroup(ps) => ResKindData::Group(
            ps@.map_values(|p: ShaderProperty| prop_data(p)),
        ),
    }
}

/// What one resource definition holds, as mathematical values.
pub struct DefData {
    pub name: Seq<char>,
    pub kind: ResKindData,
    pub binding: usize,
}

pub open spec fn def_data(d: ShaderResourceDefinition) -> DefData {
    DefData { name: d.name@, kind: reskind_data(d.kind), binding: d.binding }
}

/// What the codec asks of a definition: well-shaped matrices, and names and
/// payloads short enough for their length words.
pub open spec fn prop_data_ok(p: PropData) -> bool {
    &&& kind_data_wf(p.kind)
    &&& p.name.len() <= u64::MAX
    &&& kind_words(p.kind).len() <= u64::MAX
}

pub open spec fn def_data_ok(d: DefData) -> bool {
    &&& d.name.len() <= u64::MAX
    &&& match d.kind {
        ResKindData::Texture { .. } => true,
        ResKindData::Group(ps) => ps.len() <= u64::MAX && forall|i: int|
            0 <= i < ps.len() ==> prop_data_ok(#[trigger] ps[i]),
    }
}

/// A sampler kind as one word.
pub open spec fn sampler_tag(k: SamplerKind) -> u64 {
    match k {
        SamplerKind::Sampler1D => 0,
        SamplerKind::Sampler2D => 1,
        SamplerKind::Sampler3D => 2,
        SamplerKind::SamplerCube => 3,
        SamplerKind::USampler1D => 4,
        SamplerKind::USampler2D => 5,
        SamplerKind::USampler3D => 6,
        SamplerKind::USamplerCube => 7,
    }
}

pub open spec fn sampler_of_tag(w: u64) -> Option<SamplerKind> {
    if w == 0 {
        Some(SamplerKind::Sampler1D)
    } else if w == 1 {
        Some(SamplerKind::Sampler2D)
    } else if w == 2 {
        Some(SamplerKind::Sampler3D)
    } else if w == 3 {
        Some(SamplerKind::SamplerCube)
    } else if w == 4 {
        Some(SamplerKind::USampler1D)
    } else if w == 5 {
        Some(SamplerKind::USampler2D)
    } else if w == 6 {
        Some(SamplerKind::USampler3D)
    } else if w == 7 {
        Some(SamplerKind::USamplerCube)
    } else {
        None
    }
}

/// A sampler fallback as one word.
pub open spec fn fallback_tag(f: SamplerFallback) -> u64 {
    match f {
        SamplerFallback::White => 0,
        SamplerFallback::Normal => 1,
        SamplerFallback::Black => 2,
        SamplerFallback::Volume => 3,
    }
}

pub open spec fn fallback_of_tag(w: u64) -> Option<SamplerFallback> {
    if w == 0 {
        Some(SamplerFallback::White)
    } else if w == 1 {
        Some(SamplerFallback::Normal)
    } else if w == 2 {
        Some(SamplerFallback::Black)
    } else if w == 3 {
        Some(SamplerFallback::Volume)
    } else {
        None
    }
}

/// A property kind in the stream: its tag, its payload length, its payload.
pub open spec fn enc_kind_block(d: PropertyKindData) -> Seq<u64> {
    seq![kind_tag_of(d), kind_words(d).len() as u64] + kind_words(d)
}

pub open spec fn dec_kind_block(s: Seq<u64>, pos: int) -> Option<(PropertyKindData, int)> {
    match dec_word(s, pos) {
        None => None,
        Some((tag, p1)) => match dec_word(s, p1) {
            None => None,
            Some((cnt, p2)) => if p2 + cnt <= s.len() {
                match words_to_kind(tag, s.subrange(p2, p2 + cnt)) {
                    None => None,
                    Some(kd) => Some((kd, p2 + cnt)),
                }
            } else {
                None
            },
        },
    }
}

/// A property in the stream: its name, then its kind block.
pub open spec fn enc_prop(p: PropData) -> Seq<u64> {
    enc_string(p.name) + enc_kind_block(p.kind)
}

pub open spec fn dec_prop(s: Seq<u64>, pos: int) -> Option<(PropData, int)> {
    match dec_string(s, pos) {
        None => None,
        Some((name, p1)) => match dec_kind_block(s, p1) {
            None => None,
            Some((kind, p2)) => Some((PropData { name, kind }, p2)),
        },
    }
}

pub open spec fn enc_props(ps: Seq<PropData>) -> Seq<u64>
    decreases ps.len(),
{
    if ps.len() == 0 {
        Seq::empty()
    } else {
        enc_prop(ps[0]) + enc_props(ps.drop_first())
    }
}

pub open spec fn dec_props(s: Seq<u64>, pos: int, count: nat) -> Option<(Seq<PropData>, int)>
    decreases count,
{
    if count == 0 {
        Some((Seq::empty(), pos))
    } else {
        match dec_prop(s, pos) {
            None => None,
            Some((p, p1)) => match dec_props(s, p1, (count - 1) as nat) {
                None => None,
                Some((ps, p2)) => Some((seq![p] + ps, p2)),
            },
        }
    }
}

/// A resource kind in the stream: a texture as its two tags, a property
/// group as its property count and the properties.
pub open spec fn enc_reskind(k: ResKindData) -> Seq<u64> {
    match k {
        ResKindData::Texture { kind, fallback } => seq![
            0u64,
            sampler_tag(kind),
            fallback_tag(fallback),
        ],
        ResKindData::Group(ps) => seq![1u64, ps.len() as u64] + enc_props(ps),
    }
}

pub open spec fn dec_reskind(s: Seq<u64>, pos: int) -> Option<(ResKindData, int)> {
    match dec_word(s, pos) {
        None => None,
        Some((tag, p1)) => if tag == 0 {
            match dec_word(s, p1) {
                None => None,
                Some((kw, p2)) => match sampler_of_tag(kw) {
                    None => None,
                    Some(kind) => match dec_word(s, p2) {
                        None => None,
                        Some((fw, p3)) => match fallback_of_tag(fw) {
                            None => None,
                            Some(fallback) => Some((ResKindData::Texture { kind, fallback }, p3)),
                        },
                    },
                },
            }
        } else if tag == 1 {
            match dec_word(s, p1) {
                None => None,
                Some((cnt, p2)) => match dec_props(s, p2, cnt as nat) {
                    None => None,
                    Some((ps, p3)) => Some((ResKindData::Group(ps), p3)),
                },
            }
        } else {
            None
        },
    }
}

/// A resource definition in the stream: name, binding slot, then its kind.
pub open spec fn enc_definition(d: DefData) -> Seq<u64> {
    enc_string(d.name) + seq![d.binding as u64] + enc_reskind(d.kind)
}

pub open spec fn dec_definition(s: Seq<u64>, pos: int) -> Option<(DefData, int)> {
    match dec_string(s, pos) {
        None => None,
        Some((name, p1)) => match dec_word(s, p1) {
            None => None,
            Some((bw, p2)) => if bw <= usize::MAX {
                match dec_reskind(s, p2) {
                    None => None,
                    Some((kind, p3)) => Some(
                        (DefData { name, kind, binding: bw as usize }, p3),
                    ),
                }
            } else {
                None
            },
        },
    }
}

proof fn lemma_dec_kind_block_at(s: Seq<u64>, pos: int, d: PropertyKindData)
    requires
        0 <= pos,
        kind_data_wf(d),
        kind_words(d).len() <= u64::MAX,
        pos + enc_kind_block(d).len() <= s.len(),
        s.subrange(pos, pos + enc_kind_block(d).len()) == enc_kind_block(d),
    ensures
        dec_kind_block(s, pos) == Some((d, pos + enc_kind_block(d).len())),
{
    let e = enc_kind_block(d);
    let kl = kind_words(d).len() as int;
    assert forall|i: int| 0 <= i < e.len() implies s[pos + i] == e[i] by {
        assert(s.subrange(pos, pos + e.len())[i] == s[pos + i]);
    }
    assert(s[pos] == e[0]);
    assert(e[0] == kind_tag_of(d));
    assert(s[pos + 1] == e[1]);
    assert(e[1] == kind_words(d).len() as u64);
    assert(s.subrange(pos + 2, pos + 2 + kl) =~= kind_words(d)) by {
        assert(forall|i: int|
            0 <= i < kl ==> #[trigger] s.subrange(pos + 2, pos + 2 + kl)[i] == e[2 + i]);
    }
    lemma_kind_words_roundtrip(d);
}

proof fn lemma_dec_prop_at(s: Seq<u64>, pos: int, p: PropData)
    requires
        0 <= pos,
        prop_data_ok(p),
        pos + enc_prop(p).len() <= s.len(),
        s.subrange(pos, pos + enc_prop(p).len()) == enc_prop(p),
    ensures
        dec_prop(s, pos) == Some((p, pos + enc_prop(p).len())),
{
    let e = enc_prop(p);
    let nl = p.name.len() as int;
    lemma_enc_chars_len(p.name);
    assert forall|i: int| 0 <= i < e.len() implies s[pos + i] == e[i] by {
        assert(s.subrange(pos, pos + e.len())[i] == s[pos + i]);
    }
    assert(s.subrange(pos, pos + 1 + nl) =~= enc_string(p.name)) by {
        assert(forall|i: int|
            0 <= i < 1 + nl ==> #[trigger] s.subrange(pos, pos + 1 + nl)[i] == e[i]);
    }
    lemma_dec_string_at(s, pos, p.name);
    let p1 = pos + 1 + nl;
    let bl = enc_kind_block(p.kind).len();
    assert(s.subrange(p1, p1 + bl) =~= enc_kind_block(p.kind)) by {
        assert(forall|i: int|
            0 <= i < bl ==> #[trigger] s.subrange(p1, p1 + bl)[i] == e[1 + nl + i]);
    }
    lemma_dec_kind_block_at(s, p1, p.kind);
}

proof fn lemma_dec_props_at(s: Seq<u64>, pos: int, ps: Seq<PropData>)
    requires
        0 <= pos,
        forall|i: int| 0 <= i < ps.len() ==> prop_data_ok(#[trigger] ps[i]),
        pos + enc_props(ps).len() <= s.len(),
        s.subrange(pos, pos + enc_props(ps).len()) == enc_props(ps),
    ensures
        dec_props(s, pos, ps.len() as nat) == Some((ps, pos + enc_props(ps).len())),
    decreases ps.len(),
{
    if ps.len() > 0 {
        let e = enc_props(ps);
        let l0 = enc_prop(ps[0]).len();
        assert forall|i: int| 0 <= i < e.len() implies s[pos + i] == e[i] by {
            assert(s.subrange(pos, pos + e.len())[i] == s[pos + i]);
        }
        assert(s.subrange(pos, pos + l0) =~= enc_prop(ps[0])) by {
            assert(forall|i: int|
                0 <= i < l0 ==> #[trigger] s.subrange(pos, pos + l0)[i] == e[i]);
        }
        lemma_dec_prop_at(s, pos, ps[0]);
        assert(s.subrange(pos + l0, pos + e.len()) =~= enc_props(ps.drop_first())) by {
            assert(forall|i: int|
                0 <= i < e.len() - l0 ==> #[trigger] s.subrange(pos + l0, pos + e.len())[i] == e[l0
                    + i]);
        }
        lemma_dec_props_at(s, pos + l0, ps.drop_first());
        assert(seq![ps[0]] + ps.drop_first() =~= ps);
    }
}

/// Serializing a shader resource definition — its nested property tree
/// included — and reading the stream back yields it again, field for field;
/// also with anything else following it in the stream.
pub proof fn lemma_definition_round_trip_in(s: Seq<u64>, pos: int, d: DefData)
    requires
        0 <= pos,
        def_data_ok(d),
        pos + enc_definition(d).len() <= s.len(),
        s.subrange(pos, pos + enc_definition(d).len()) == enc_definition(d),
    ensures
        dec_definition(s, pos) == Some((d, pos + enc_definition(d).len())),
{
    let e = enc_definition(d);
    let nl = d.name.len() as int;
    lemma_enc_chars_len(d.name);
    assert forall|i: int| 0 <= i < e.len() implies s[pos + i] == e[i] by {
        assert(s.subrange(pos, pos + e.len())[i] == s[pos + i]);
    }
    assert(s.subrange(pos, pos + 1 + nl) =~= enc_string(d.name)) by {
        assert(forall|i: int|
            0 <= i < 1 + nl ==> #[trigger] s.subrange(pos, pos + 1 + nl)[i] == e[i]);
    }
    lemma_dec_string_at(s, pos, d.name);
    let p1 = pos + 1 + nl;
    assert(s[p1] == e[1 + nl]);
    assert(e[1 + nl] == d.binding as u64);
    let p2 = p1 + 1;
    let kl = enc_reskind(d.kind).len();
    assert(s.subrange(p2, p2 + kl) =~= enc_reskind(d.kind)) by {
        assert(forall|i: int|
            0 <= i < kl ==> #[trigger] s.subrange(p2, p2 + kl)[i] == e[1 + nl + 1 + i]);
    }
    match d.kind {
        ResKindData::Texture { kind, fallback } => {
            assert(s.subrange(p2, p2 + kl)[0] == s[p2]);
            assert(s.subrange(p2, p2 + kl)[1] == s[p2 + 1]);
            assert(s.subrange(p2, p2 + kl)[2] == s[p2 + 2]);
            assert(s[p2] == 0u64);
            assert(s[p2 + 1] == sampler_tag(kind));
            assert(s[p2 + 2] == fallback_tag(fallback));
            assert(sampler_of_tag(sampler_tag(kind)) == Some(kind));
            assert(fallback_of_tag(fallback_tag(fallback)) == Some(fallback));
        },
        ResKindData::Group(ps) => {
            assert(s.subrange(p2, p2 + kl)[0] == s[p2]);
            assert(s.subrange(p2, p2 + kl)[1] == s[p2 + 1]);
            assert(s[p2] == 1u64);
            assert(s[p2 + 1] == ps.len() as u64);
            let pl = enc_props(ps).len();
            assert(s.subrange(p2 + 2, p2 + 2 + pl) =~= enc_props(ps)) by {
                assert(forall|i: int|
                    0 <= i < pl ==> #[trigger] s.subrange(p2 + 2, p2 + 2 + pl)[i] == enc_reskind(
                        d.kind,
                    )[2 + i]);
            }
            lemma_dec_props_at(s, p2 + 2, ps);
        },
    }
}

/// The round trip itself: a serialized shader resource definition, read
/// alone, comes back equal — the resource-definition side of the
/// serializer's round-trip promise.
pub proof fn lemma_definition_round_trip(d: DefData)
    requires
        def_data_ok(d),
    ensures
        dec_definition(enc_definition(d), 0) == Some((d, enc_definition(d).len() as int)),
{
    assert(enc_definition(d).subrange(0, enc_definition(d).len() as int) =~= enc_definition(d));
    lemma_definition_round_trip_in(enc_definition(d), 0, d);
}

/// The shape side of `kind_wf` carries over to the view the codec reads.
pub proof fn lemma_kind_wf_data(k: ShaderPropertyKind)
    requires
        crate::shader::kind_wf(k),
    ensures
        kind_data_wf(kind_data(k)),
{
    match k {
        ShaderPropertyKind::Matrix2Array { value, .. } => {
            let mv = value@.map_values(|m: MatrixBits| m.entries@);
            assert forall|i: int| 0 <= i < mv.len() implies (#[trigger] mv[i]).len() == 4 by {
                assert(crate::shader::matrix_wf(value@[i], 2));
            }
        },
        ShaderPropertyKind::Matrix3Array { value, .. } => {
            let mv = value@.map_values(|m: MatrixBits| m.entries@);
            assert forall|i: int| 0 <= i < mv.len() implies (#[trigger] mv[i]).len() == 9 by {
                assert(crate::shader::matrix_wf(value@[i], 3));
            }
        },
        ShaderPropertyKind::Matrix4Array { value, .. } => {
            let mv = value@.map_values(|m: MatrixBits| m.entries@);
            assert forall|i: int| 0 <= i < mv.len() implies (#[trigger] mv[i]).len() == 16 by {
                assert(crate::shader::matrix_wf(value@[i], 4));
            }
        },
        _ => {},
    }
}

/// The round trip, spoken of the resource definition type itself: writing a
/// definition's fields and reading the stream back yields them again.
pub proof fn lemma_shader_definition_round_trip(d: ShaderResourceDefinition)
    requires
        def_data_ok(def_data(d)),
    ensures
        dec_definition(enc_definition(def_data(d)), 0) == Some(
            (def_data(d), enc_definition(def_data(d)).len() as int),
        ),
{
    lemma_definition_round_trip(def_data(d));
}

/// The round trip itself: a serialized node, read alone, comes back equal.
pub proof fn lemma_node_round_trip(d: NodeData)
    requires
        d.name.len() <= u64::MAX,
        d.children.len() <= u64::MAX,
    ensures
        dec_node(enc_node(d), 0) == Some((d, enc_node(d).len() as int)),
{
    assert(enc_node(d).subrange(0, enc_node(d).len() as int) =~= enc_node(d));
    lemma_node_round_trip_in(enc_node(d), 0, d);
}

} // verus!
