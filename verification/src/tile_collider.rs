//! Tile colliders provide shapes for tiles so that physics colliders can be
//! built for tile maps. [`TileCollider`] divides colliders into broad
//! categories, while [`CustomTileCollider`] holds triangle data for an
//! arbitrary shape.
//!
//! Custom tile colliders can be read from and written to strings holding 2D
//! vertex positions and triangle index triples: a group of two numbers is a
//! vertex, a group of three numbers is an index triple. Commas connect the
//! numbers of one group; every other character between groups is ignored, so
//! `"0,0 1,1 1,0 0,1,2"` and `"(0,0) (1,1) (1,0) [0,1,2]"` read the same.
//! Vertex coordinates are kept to three decimal digits, stored as exact
//! thousandths of a tile unit.

use crate::numbers::{
    dec_digits, dec_string, is_digit_char, milli_string, parse_milli, parse_u32, spec_milli_string,
    spec_parse_milli, spec_parse_u32, NumberError,
};
use vstd::prelude::*;

verus! {

// ---------------------------------------------------------------------------
// Tokenizer
// ---------------------------------------------------------------------------
/// Characters that can make up a number token.
pub open spec fn spec_is_number_char(c: char) -> bool {
    is_digit_char(c) || c == '.' || c == '-'
}

/// Characters that separate groups and are otherwise skipped as noise.
pub open spec fn spec_is_ignore_char(c: char) -> bool {
    !spec_is_number_char(c) && c != ','
}

pub fn is_number_char(c: char) -> (r: bool)
    ensures
        r == spec_is_number_char(c),
{
    let u = c as u32;
    (48 <= u && u <= 57) || c == '.' || c == '-'
}

pub fn is_ignore_char(c: char) -> (r: bool)
    ensures
        r == spec_is_ignore_char(c),
{
    !is_number_char(c) && c != ','
}

/// First position at or after `i` holding a character that is not noise.
pub open spec fn skip_ignored(s: Seq<char>, i: int) -> int
    decreases s.len() - i,
    when 0 <= i <= s.len()
{
    if i >= s.len() {
        i
    } else if spec_is_ignore_char(s[i]) {
        skip_ignored(s, i + 1)
    } else {
        i
    }
}

proof fn lemma_skip_ignored_props(s: Seq<char>, i: int)
    requires
        0 <= i <= s.len(),
    ensures
        i <= skip_ignored(s, i) <= s.len(),
        skip_ignored(s, i) < s.len() ==> !spec_is_ignore_char(s[skip_ignored(s, i)]),
    decreases s.len() - i,
{
    if i < s.len() && spec_is_ignore_char(s[i]) {
        lemma_skip_ignored_props(s, i + 1);
    }
}

/// First position at or after `i` where a number token ends.
pub open spec fn token_end(s: Seq<char>, i: int) -> int
    decreases s.len() - i,
    when 0 <= i <= s.len()
{
    if i >= s.len() {
        i
    } else if spec_is_number_char(s[i]) {
        token_end(s, i + 1)
    } else {
        i
    }
}

proof fn lemma_token_end_props(s: Seq<char>, i: int)
    requires
        0 <= i <= s.len(),
    ensures
        i <= token_end(s, i) <= s.len(),
        token_end(s, i) < s.len() ==> !spec_is_number_char(s[token_end(s, i)]),
        forall|k: int| i <= k < token_end(s, i) ==> spec_is_number_char(#[trigger] s[k]),
    decreases s.len() - i,
{
    if i < s.len() && spec_is_number_char(s[i]) {
        lemma_token_end_props(s, i + 1);
    }
}

/// What one step of the tokenizer yields from position `pos`: the token and
/// the position where scanning resumes, or nothing when only noise is left.
pub open spec fn spec_next_token(s: Seq<char>, pos: int) -> Option<(Seq<char>, int)> {
    let st = skip_ignored(s, pos);
    if st >= s.len() {
        None
    } else if s[st] == ',' {
        Some((seq![','], st + 1))
    } else {
        let e = token_end(s, st);
        let np = if e >= s.len() {
            e
        } else if s[e] == ',' {
            e
        } else {
            e + 1
        };
        Some((s.subrange(st, e), np))
    }
}

/// A step of the tokenizer always moves forward and yields either the
/// one-character comma token or a non-empty run of number characters.
pub proof fn lemma_next_token_props(s: Seq<char>, pos: int)
    requires
        0 <= pos <= s.len(),
    ensures
        match spec_next_token(s, pos) {
            None => true,
            Some((t, np)) => {
                &&& pos < np <= s.len()
                &&& t.len() > 0
                &&& (t == seq![','] || (t.len() > 0 && forall|k: int|
                    0 <= k < t.len() ==> spec_is_number_char(#[trigger] t[k])))
            },
        },
{
    lemma_skip_ignored_props(s, pos);
    let st = skip_ignored(s, pos);
    if st < s.len() && s[st] != ',' {
        lemma_token_end_props(s, st);
        assert(spec_is_number_char(s[st]));
        assert(token_end(s, st) > st);
        let t = s.subrange(st, token_end(s, st));
        assert(forall|k: int| 0 <= k < t.len() ==> t[k] == s[st + k]);
    }
}

/// Splits a string into alternating number and `,` tokens, skipping all other
/// characters as noise.
pub struct TokenIter<'a> {
    source: &'a str,
    position: usize,
}

impl<'a> TokenIter<'a> {
    pub closed spec fn spec_source(self) -> Seq<char> {
        self.source@
    }

    pub closed spec fn spec_position(self) -> int {
        self.position as int
    }

    pub open spec fn wf(self) -> bool {
        0 <= self.spec_position() <= self.spec_source().len()
    }

    pub fn new(source: &'a str) -> (it: TokenIter<'a>)
        ensures
            it.wf(),
            it.spec_source() == source@,
            it.spec_position() == 0,
    {
        TokenIter { source, position: 0 }
    }

    /// Yields the next token, advancing past it.
    #[verifier::loop_isolation(false)]
    pub fn next(&mut self) -> (tok: Option<&'a str>)
        requires
            old(self).wf(),
        ensures
            final(self).wf(),
            final(self).spec_source() == old(self).spec_source(),
            match spec_next_token(old(self).spec_source(), old(self).spec_position()) {
                None => tok is None && final(self).spec_position() == old(
                    self,
                ).spec_source().len(),
                Some((t, np)) => tok matches Some(x) && x@ == t && final(self).spec_position()
                    == np,
            },
    {
        let ghost s = self.source@;
        let n: usize = self.source.unicode_len();
        let mut i: usize = self.position;
        while i < n && is_ignore_char(self.source.get_char(i))
            invariant
                self.position <= i <= n,
                skip_ignored(s, self.position as int) == skip_ignored(s, i as int),
            decreases n - i,
        {
            i = i + 1;
        }
        assert(skip_ignored(s, i as int) == i);
        if i >= n {
            self.position = n;
            return None;
        }
        let c = self.source.get_char(i);
        if c == ',' {
            self.position = i + 1;
            let t = self.source.substring_char(i, i + 1);
            assert(t@ =~= seq![',']);
            return Some(t);
        }
        let mut j: usize = i + 1;
        assert(token_end(s, i as int) == token_end(s, j as int));
        while j < n && is_number_char(self.source.get_char(j))
            invariant
                i < j <= n,
                token_end(s, i as int) == token_end(s, j as int),
            decreases n - j,
        {
            j = j + 1;
        }
        assert(token_end(s, j as int) == j);
        let t = self.source.substring_char(i, j);
        if j == n {
            self.position = j;
        } else if self.source.get_char(j) == ',' {
            self.position = j;
        } else {
            self.position = j + 1;
        }
        Some(t)
    }
}

// ---------------------------------------------------------------------------
// Collider data
// ---------------------------------------------------------------------------
/// A 2D vertex position in thousandths of a tile unit, with the tile covering
/// (0, 0) to (1000, 1000).
#[derive(Clone, Copy, Debug, PartialEq, Eq, Structural, Hash)]
pub struct Vector2 {
    pub x: i64,
    pub y: i64,
}

impl Vector2 {
    pub fn new(x: i64, y: i64) -> (v: Vector2)
        ensures
            v == (Vector2 { x, y }),
    {
        Vector2 { x, y }
    }
}

/// The indices of the vertices of one triangle.
#[derive(Clone, Copy, Debug, PartialEq, Eq, Hash)]
pub struct TriangleDefinition(pub [u32; 3]);

impl TriangleDefinition {
    /// The three indices as a sequence.
    pub open spec fn idxs(self) -> Seq<u32> {
        self.0@
    }
}

/// Triangle data for a tile collider arranged in a rectangle from (0, 0) to
/// (1000, 1000) thousandths.
#[derive(Clone, Debug, PartialEq)]
pub struct CustomTileCollider {
    /// The vertices of the triangles.
    pub vertices: Vec<Vector2>,
    /// The indices of the vertices of each triangle.
    pub triangles: Vec<TriangleDefinition>,
}

impl CustomTileCollider {
    /// The triangle index sequences.
    pub open spec fn spec_triangles(self) -> Seq<Seq<u32>> {
        self.triangles@.map_values(|t: TriangleDefinition| t.idxs())
    }

    /// Every triangle corner names an existing vertex.
    pub open spec fn wf(self) -> bool {
        forall|i: int, k: int|
            0 <= i < self.triangles@.len() && 0 <= k < 3 ==> (
            #[trigger] self.triangles@[i].idxs()[k]) < self.vertices@.len()
    }
}

impl Default for CustomTileCollider {
    /// An empty collider.
    fn default() -> (c: CustomTileCollider)
        ensures
            c.vertices@ == Seq::<Vector2>::empty(),
            c.triangles@ == Seq::<TriangleDefinition>::empty(),
    {
        CustomTileCollider { vertices: Vec::new(), triangles: Vec::new() }
    }
}

/// Errors that may occur while reading a custom tile collider from text.
#[derive(Clone, Copy, Debug, PartialEq, Eq, Structural, Hash)]
pub enum CustomTileColliderStrError {
    /// A group is shorter than 2. For example: "7"
    GroupTooShort,
    /// A group is longer than 3. For example: "7,7,8,9"
    GroupTooLong(usize),
    /// A comma was found without a number before it. For example: ",7"
    MissingNumber,
    /// A triangle corner does not match any of the given vertices.
    IndexOutOfBounds(u32),
    /// An entry of a length-3 group is not a valid index.
    IndexParseError(NumberError),
    /// An entry of a length-2 group is not a valid coordinate.
    CoordinateParseError(NumberError),
}

// ---------------------------------------------------------------------------
// Reading colliders from text
// ---------------------------------------------------------------------------
/// What one complete group of number tokens adds to the collider: a vertex
/// for two numbers, a triangle for three, an error otherwise.
pub open spec fn spec_push_group(
    g: Seq<Seq<char>>,
    verts: Seq<Vector2>,
    tris: Seq<Seq<u32>>,
) -> Result<(Seq<Vector2>, Seq<Seq<u32>>), CustomTileColliderStrError> {
    if g.len() < 2 {
        Err(CustomTileColliderStrError::GroupTooShort)
    } else if g.len() > 3 {
        Err(CustomTileColliderStrError::GroupTooLong(g.len() as usize))
    } else if g.len() == 2 {
        match spec_parse_milli(g[0]) {
            Err(e) => Err(CustomTileColliderStrError::CoordinateParseError(e)),
            Ok(x) => match spec_parse_milli(g[1]) {
                Err(e) => Err(CustomTileColliderStrError::CoordinateParseError(e)),
                Ok(y) => Ok((verts.push(Vector2 { x, y }), tris)),
            },
        }
    } else {
        match spec_parse_u32(g[0]) {
            Err(e) => Err(CustomTileColliderStrError::IndexParseError(e)),
            Ok(a) => match spec_parse_u32(g[1]) {
                Err(e) => Err(CustomTileColliderStrError::IndexParseError(e)),
                Ok(b) => match spec_parse_u32(g[2]) {
                    Err(e) => Err(CustomTileColliderStrError::IndexParseError(e)),
                    Ok(c) => Ok((verts, tris.push(seq![a, b, c]))),
                },
            },
        }
    }
}

/// The first triangle corner at or after triangle `i` that does not name an
/// existing vertex, scanning triangles in order and corners left to right.
pub open spec fn find_oob_from(tris: Seq<Seq<u32>>, nverts: int, i: int) -> Option<u32>
    decreases tris.len() - i,
    when 0 <= i <= tris.len()
{
    if i >= tris.len() {
        None
    } else {
        let t = tris[i];
        if t[0] >= nverts {
            Some(t[0])
        } else if t[1] >= nverts {
            Some(t[1])
        } else if t[2] >= nverts {
            Some(t[2])
        } else {
            find_oob_from(tris, nverts, i + 1)
        }
    }
}

/// The state machine that folds the token stream into vertices and triangles:
/// `ready` says a number may start a group here, `group` holds the tokens of
/// the group being gathered. At the end the pending group is flushed and all
/// triangle corners are checked against the final vertex count.
pub open spec fn spec_run_parse(
    s: Seq<char>,
    pos: int,
    ready: bool,
    group: Seq<Seq<char>>,
    verts: Seq<Vector2>,
    tris: Seq<Seq<u32>>,
) -> Result<(Seq<Vector2>, Seq<Seq<u32>>), CustomTileColliderStrError>
    decreases s.len() - pos,
    when 0 <= pos <= s.len()
    via spec_run_parse_decreases
{
    match spec_next_token(s, pos) {
        None => {
            let flushed = if group.len() > 0 {
                spec_push_group(group, verts, tris)
            } else {
                Ok((verts, tris))
            };
            match flushed {
                Err(e) => Err(e),
                Ok((v, t)) => match find_oob_from(t, v.len() as int, 0) {
                    Some(ix) => Err(CustomTileColliderStrError::IndexOutOfBounds(ix)),
                    None => Ok((v, t)),
                },
            }
        },
        Some((tok, np)) => {
            if ready {
                if tok == seq![','] {
                    Err(CustomTileColliderStrError::MissingNumber)
                } else {
                    spec_run_parse(s, np, false, group.push(tok), verts, tris)
                }
            } else if tok != seq![','] {
                match spec_push_group(group, verts, tris) {
                    Err(e) => Err(e),
                    Ok((v, t)) => spec_run_parse(s, np, false, seq![tok], v, t),
                }
            } else {
                spec_run_parse(s, np, true, group, verts, tris)
            }
        },
    }
}

#[via_fn]
proof fn spec_run_parse_decreases(
    s: Seq<char>,
    pos: int,
    ready: bool,
    group: Seq<Seq<char>>,
    verts: Seq<Vector2>,
    tris: Seq<Seq<u32>>,
) {
    lemma_next_token_props(s, pos);
}

/// How a whole string reads as a custom tile collider.
pub open spec fn spec_collider_from_str(s: Seq<char>) -> Result<
    (Seq<Vector2>, Seq<Seq<u32>>),
    CustomTileColliderStrError,
> {
    spec_run_parse(s, 0, true, Seq::empty(), Seq::empty(), Seq::empty())
}

/// Folds one finished group into the vertex and triangle lists.
fn process_group(
    group: &Vec<&str>,
    vertices: &mut Vec<Vector2>,
    triangles: &mut Vec<TriangleDefinition>,
) -> (r: Result<(), CustomTileColliderStrError>)
    ensures
        match spec_push_group(
            group@.map_values(|t: &str| t@),
            old(vertices)@,
            old(triangles)@.map_values(|t: TriangleDefinition| t.idxs()),
        ) {
            Ok((v, t)) => r is Ok && final(vertices)@ == v && final(triangles)@.map_values(
                |t: TriangleDefinition| t.idxs(),
            ) == t,
            Err(e) => r == Err::<(), CustomTileColliderStrError>(e) && final(vertices)@ == old(
                vertices,
            )@ && final(triangles)@ == old(triangles)@,
        },
{
    let ghost gv = group@.map_values(|t: &str| t@);
    let len = group.len();
    if len < 2 {
        return Err(CustomTileColliderStrError::GroupTooShort);
    }
    if len > 3 {
        return Err(CustomTileColliderStrError::GroupTooLong(len));
    }
    if len == 2 {
        let x = match parse_milli(group[0]) {
            Ok(x) => x,
            Err(e) => {
                return Err(CustomTileColliderStrError::CoordinateParseError(e));
            },
        };
        let y = match parse_milli(group[1]) {
            Ok(y) => y,
            Err(e) => {
                return Err(CustomTileColliderStrError::CoordinateParseError(e));
            },
        };
        vertices.push(Vector2 { x, y });
        assert(final(triangles)@.map_values(|t: TriangleDefinition| t.idxs()) =~= old(
            triangles,
        )@.map_values(|t: TriangleDefinition| t.idxs()));
        Ok(())
    } else {
        let a = match parse_u32(group[0]) {
            Ok(a) => a,
            Err(e) => {
                return Err(CustomTileColliderStrError::IndexParseError(e));
            },
        };
        let b = match parse_u32(group[1]) {
            Ok(b) => b,
            Err(e) => {
                return Err(CustomTileColliderStrError::IndexParseError(e));
            },
        };
        let c = match parse_u32(group[2]) {
            Ok(c) => c,
            Err(e) => {
                return Err(CustomTileColliderStrError::IndexParseError(e));
            },
        };
        triangles.push(TriangleDefinition([a, b, c]));
        proof {
            let f = |t: TriangleDefinition| t.idxs();
            assert(TriangleDefinition([a, b, c]).idxs() =~= seq![a, b, c]);
            assert(final(triangles)@.map_values(f) =~= old(triangles)@.map_values(f).push(
                seq![a, b, c],
            ));
        }
        Ok(())
    }
}

impl CustomTileCollider {
    /// Reads a collider from text: alternating number and comma tokens form
    /// groups; a group of two numbers is a vertex, a group of three numbers a
    /// triangle; every triangle corner must name a vertex defined anywhere in
    /// the string.
    #[verifier::loop_isolation(false)]
    pub fn from_str(s: &str) -> (r: Result<CustomTileCollider, CustomTileColliderStrError>)
        ensures
            match r {
                Ok(c) => spec_collider_from_str(s@) == Ok::<
                    (Seq<Vector2>, Seq<Seq<u32>>),
                    CustomTileColliderStrError,
                >((c.vertices@, c.spec_triangles())) && c.wf(),
                Err(e) => spec_collider_from_str(s@) == Err::<
                    (Seq<Vector2>, Seq<Seq<u32>>),
                    CustomTileColliderStrError,
                >(e),
            },
    {
        let ghost src = s@;
        let mut it = TokenIter::new(s);
        let mut group: Vec<&str> = Vec::new();
        let mut ready: bool = true;
        let mut vertices: Vec<Vector2> = Vec::new();
        let mut triangles: Vec<TriangleDefinition> = Vec::new();
        let mut done: bool = false;
        proof {
            assert(group@.map_values(|t: &str| t@) =~= Seq::<Seq<char>>::empty());
            assert(triangles@.map_values(|t: TriangleDefinition| t.idxs()) =~= Seq::<
                Seq<u32>,
            >::empty());
        }
        while !done
            invariant
                it.wf(),
                it.spec_source() == src,
                spec_run_parse(
                    src,
                    it.spec_position(),
                    ready,
                    group@.map_values(|t: &str| t@),
                    vertices@,
                    triangles@.map_values(|t: TriangleDefinition| t.idxs()),
                ) == spec_collider_from_str(src),
                done ==> spec_next_token(src, it.spec_position()) is None,
            decreases src.len() - it.spec_position() + if done {
                0int
            } else {
                1int
            },
        {
            proof {
                lemma_next_token_props(src, it.spec_position());
            }
            let ghost gv = group@.map_values(|t: &str| t@);
            match it.next() {
                None => {
                    done = true;
                },
                Some(tok) => {
                    let is_comma = tok.unicode_len() == 1 && tok.get_char(0) == ',';
                    proof {
                        if is_comma {
                            assert(tok@ =~= seq![',']);
                        } else {
                            assert(tok@ != seq![',']) by {
                                if tok@ == seq![','] {
                                    assert(tok@.len() == 1 && tok@[0] == ',');
                                }
                            }
                        }
                    }
                    if ready {
                        if !is_comma {
                            group.push(tok);
                            ready = false;
                            assert(group@.map_values(|t: &str| t@) =~= gv.push(tok@));
                        } else {
                            return Err(CustomTileColliderStrError::MissingNumber);
                        }
                    } else if !is_comma {
                        match process_group(&group, &mut vertices, &mut triangles) {
                            Ok(_) => {},
                            Err(e) => {
                                return Err(e);
                            },
                        }
                        group.clear();
                        group.push(tok);
                        assert(group@.map_values(|t: &str| t@) =~= seq![tok@]);
                    } else {
                        ready = true;
                    }
                },
            }
        }
        if group.len() > 0 {
            match process_group(&group, &mut vertices, &mut triangles) {
                Ok(_) => {},
                Err(e) => {
                    return Err(e);
                },
            }
        }
        let ghost tris = triangles@.map_values(|t: TriangleDefinition| t.idxs());
        let nverts: usize = vertices.len();
        let mut i: usize = 0;
        while i < triangles.len()
            invariant
                0 <= i <= triangles@.len(),
                tris == triangles@.map_values(|t: TriangleDefinition| t.idxs()),
                find_oob_from(tris, nverts as int, 0) == find_oob_from(tris, nverts as int, i as int),
            decreases triangles@.len() - i,
        {
            let t = &triangles[i];
            assert(tris[i as int] == t.idxs());
            if t.0[0] as usize >= nverts {
                return Err(CustomTileColliderStrError::IndexOutOfBounds(t.0[0]));
            }
            if t.0[1] as usize >= nverts {
                return Err(CustomTileColliderStrError::IndexOutOfBounds(t.0[1]));
            }
            if t.0[2] as usize >= nverts {
                return Err(CustomTileColliderStrError::IndexOutOfBounds(t.0[2]));
            }
            i = i + 1;
        }
        let c = CustomTileCollider { vertices, triangles };
        proof {
            assert(find_oob_from(tris, nverts as int, 0) is None);
            assert forall|ti: int, k: int|
                0 <= ti < c.triangles@.len() && 0 <= k < 3 implies (
            #[trigger] c.triangles@[ti].idxs()[k]) < c.vertices@.len() by {
                lemma_no_oob_means_wf(tris, nverts as int, ti);
                assert(tris[ti] == c.triangles@[ti].idxs());
            }
        }
        Ok(c)
    }
}

// ---------------------------------------------------------------------------
// Writing colliders as text
// ---------------------------------------------------------------------------
/// How one vertex reads: `(x, y)`.
pub open spec fn vertex_text(v: Vector2) -> Seq<char> {
    seq!['('] + spec_milli_string(v.x as int) + seq![',', ' '] + spec_milli_string(v.y as int)
        + seq![')']
}

/// How one triangle reads: `[a, b, c]`.
pub open spec fn triangle_text(t: Seq<u32>) -> Seq<char> {
    seq!['['] + dec_digits(t[0] as int) + seq![',', ' '] + dec_digits(t[1] as int) + seq![',', ' ']
        + dec_digits(t[2] as int) + seq![']']
}

/// Pieces of text joined by single spaces.
pub open spec fn join_space(items: Seq<Seq<char>>) -> Seq<char>
    decreases items.len(),
{
    if items.len() == 0 {
        Seq::<char>::empty()
    } else if items.len() == 1 {
        items[0]
    } else {
        join_space(items.drop_last()) + seq![' '] + items.last()
    }
}

/// How a whole collider reads: its vertices, then its triangles, separated by
/// spaces.
pub open spec fn spec_collider_text(c: CustomTileCollider) -> Seq<char> {
    join_space(
        c.vertices@.map_values(|v: Vector2| vertex_text(v)) + c.spec_triangles().map_values(
            |t: Seq<u32>| triangle_text(t),
        ),
    )
}

/// When the scan found no out-of-range corner, every corner is in range.
proof fn lemma_no_oob_means_wf(tris: Seq<Seq<u32>>, nverts: int, i: int)
    requires
        0 <= i < tris.len(),
        find_oob_from(tris, nverts, 0) is None,
    ensures
        tris[i][0] < nverts && tris[i][1] < nverts && tris[i][2] < nverts,
    decreases i,
{
    lemma_oob_from_none(tris, nverts, 0, i);
}

/// `find_oob_from` reports nothing only when no later triangle offends.
proof fn lemma_oob_from_none(tris: Seq<Seq<u32>>, nverts: int, j: int, i: int)
    requires
        0 <= j <= i < tris.len(),
        find_oob_from(tris, nverts, j) is None,
    ensures
        tris[i][0] < nverts && tris[i][1] < nverts && tris[i][2] < nverts,
    decreases i - j,
{
    if j < i {
        lemma_oob_from_none(tris, nverts, j + 1, i);
    }
}

impl CustomTileCollider {
    /// Writes the collider in its text format, for example
    /// `(0, 0) (1, 1) (1, 0) [0, 1, 2]`.
    #[verifier::loop_isolation(false)]
    #[verifier::rlimit(60)]
    pub fn display_string(&self) -> (r: String)
        requires
            forall|i: int|
                0 <= i < self.vertices@.len() ==> (#[trigger] self.vertices@[i]).x > i64::MIN
                    && self.vertices@[i].y > i64::MIN,
        ensures
            r@ == spec_collider_text(*self),
    {
        proof {
            reveal_strlit(" ");
            reveal_strlit("(");
            reveal_strlit(", ");
            reveal_strlit(")");
            reveal_strlit("[");
            reveal_strlit("]");
        }
        let ghost items = self.vertices@.map_values(|v: Vector2| vertex_text(v))
            + self.spec_triangles().map_values(|t: Seq<u32>| triangle_text(t));
        let nv: usize = self.vertices.len();
        let nt: usize = self.triangles.len();
        let mut s = String::new();
        let mut i: usize = 0;
        while i < nv
            invariant
                0 <= i <= nv,
                nv == self.vertices@.len(),
                nt == self.triangles@.len(),
                items == self.vertices@.map_values(|v: Vector2| vertex_text(v))
                    + self.spec_triangles().map_values(|t: Seq<u32>| triangle_text(t)),
                items.len() == nv + nt,
                s@ == join_space(items.take(i as int)),
                forall|k: int|
                    0 <= k < self.vertices@.len() ==> (#[trigger] self.vertices@[k]).x > i64::MIN
                        && self.vertices@[k].y > i64::MIN,
            decreases nv - i,
        {
            if i > 0 {
                s.append(" ");
            }
            let v = self.vertices[i];
            s.append("(");
            let xs = milli_string(v.x);
            s.append(xs.as_str());
            s.append(", ");
            let ys = milli_string(v.y);
            s.append(ys.as_str());
            s.append(")");
            proof {
                assert(items[i as int] == vertex_text(v));
                assert(items.take(i + 1 as int).drop_last() =~= items.take(i as int));
                assert(s@ =~= join_space(items.take(i + 1 as int)));
            }
            i = i + 1;
        }
        let mut j: usize = 0;
        while j < nt
            invariant
                0 <= j <= nt,
                nv == self.vertices@.len(),
                nt == self.triangles@.len(),
                items == self.vertices@.map_values(|v: Vector2| vertex_text(v))
                    + self.spec_triangles().map_values(|t: Seq<u32>| triangle_text(t)),
                items.len() == nv + nt,
                s@ == join_space(items.take(nv + j)),
            decreases nt - j,
        {
            if j > 0 || nv > 0 {
                s.append(" ");
            }
            let t = &self.triangles[j];
            s.append("[");
            let a = dec_string(t.0[0] as u64);
            s.append(a.as_str());
            s.append(", ");
            let b = dec_string(t.0[1] as u64);
            s.append(b.as_str());
            s.append(", ");
            let c = dec_string(t.0[2] as u64);
            s.append(c.as_str());
            s.append("]");
            proof {
                assert(self.spec_triangles()[j as int] == self.triangles@[j as int].idxs());
                assert(items[nv + j] == triangle_text(self.triangles@[j as int].idxs()));
                assert(items.take(nv + j + 1).drop_last() =~= items.take(nv + j));
                assert(s@ =~= join_space(items.take(nv + j + 1)));
            }
            j = j + 1;
        }
        proof {
            assert(items.take(nv + nt as int) =~= items);
        }
        s
    }
}

// ---------------------------------------------------------------------------
// Error messages
// ---------------------------------------------------------------------------
/// Short description of a number error.
pub open spec fn spec_number_error_text(e: NumberError) -> Seq<char> {
    match e {
        NumberError::Empty => "empty number"@,
        NumberError::InvalidDigit => "invalid digit"@,
        NumberError::Overflow => "number out of range"@,
    }
}

impl NumberError {
    pub fn text(&self) -> (r: &'static str)
        ensures
            r@ == spec_number_error_text(*self),
    {
        match self {
            NumberError::Empty => "empty number",
            NumberError::InvalidDigit => "invalid digit",
            NumberError::Overflow => "number out of range",
        }
    }
}

/// The message shown for each collider text error.
pub open spec fn spec_error_text(e: CustomTileColliderStrError) -> Seq<char> {
    match e {
        CustomTileColliderStrError::GroupTooShort => "Each group must have at least 2 numbers."@,
        CustomTileColliderStrError::GroupTooLong(n) => "A group has "@ + dec_digits(n as int)
            + " numbers. No group may be longer than 3."@,
        CustomTileColliderStrError::IndexOutOfBounds(n) => "Triangle index "@ + dec_digits(n as int)
            + " does not match any of the given vertices."@,
        CustomTileColliderStrError::MissingNumber => "Numbers in a group must be separated by commas."@,
        CustomTileColliderStrError::IndexParseError(pe) => "Index parse failure: "@
            + spec_number_error_text(pe),
        CustomTileColliderStrError::CoordinateParseError(pe) => "Coordinate parse failure: "@
            + spec_number_error_text(pe),
    }
}

impl CustomTileColliderStrError {
    /// Renders the error for display.
    pub fn message(&self) -> (r: String)
        ensures
            r@ == spec_error_text(*self),
    {
        let mut s = String::new();
        match self {
            CustomTileColliderStrError::GroupTooShort => {
                s.append("Each group must have at least 2 numbers.");
            },
            CustomTileColliderStrError::GroupTooLong(n) => {
                s.append("A group has ");
                let d = dec_string(*n as u64);
                s.append(d.as_str());
                s.append(" numbers. No group may be longer than 3.");
            },
            CustomTileColliderStrError::IndexOutOfBounds(n) => {
                s.append("Triangle index ");
                let d = dec_string(*n as u64);
                s.append(d.as_str());
                s.append(" does not match any of the given vertices.");
            },
            CustomTileColliderStrError::MissingNumber => {
                s.append("Numbers in a group must be separated by commas.");
            },
            CustomTileColliderStrError::IndexParseError(pe) => {
                s.append("Index parse failure: ");
                s.append(pe.text());
            },
            CustomTileColliderStrError::CoordinateParseError(pe) => {
                s.append("Coordinate parse failure: ");
                s.append(pe.text());
            },
        }
        s
    }
}

// ---------------------------------------------------------------------------
// Orthogonal transforms
// ---------------------------------------------------------------------------
/// Both coordinates stay at least `slack` away from the `i64` range ends.
pub open spec fn coord_ok(v: Vector2, slack: int) -> bool {
    &&& -(i64::MAX - slack) <= v.x <= i64::MAX - slack
    &&& -(i64::MAX - slack) <= v.y <= i64::MAX - slack
}

/// A vertex mirrored across the vertical center line of the tile.
pub open spec fn spec_x_flip(v: Vector2) -> Vector2 {
    Vector2 { x: (1000 - v.x) as i64, y: v.y }
}

/// A vertex turned a quarter turn counterclockwise about the tile center.
pub open spec fn spec_quarter_turn(v: Vector2) -> Vector2 {
    Vector2 { x: (1000 - v.y) as i64, y: v.x }
}

/// A vertex turned `n` quarter turns counterclockwise about the tile center.
pub open spec fn spec_turns(v: Vector2, n: int) -> Vector2
    decreases n,
    when n >= 0
{
    if n <= 0 {
        v
    } else {
        spec_quarter_turn(spec_turns(v, n - 1))
    }
}

/// The number of counterclockwise quarter turns `amount` stands for.
pub open spec fn spec_turn_count(amount: i8) -> int {
    (amount as int) % 4
}

fn quarter_turn(v: Vector2) -> (r: Vector2)
    requires
        coord_ok(v, 1000),
    ensures
        r == spec_quarter_turn(v),
{
    Vector2 { x: 1000 - v.y, y: v.x }
}

/// Turns `amount` (possibly negative) into quarter turns counterclockwise.
fn turn_count(amount: i8) -> (r: u32)
    ensures
        r as int == spec_turn_count(amount),
        r <= 3,
{
    if amount >= 0 {
        (amount as u32) % 4
    } else {
        let m: i32 = -(amount as i32);
        let k: u32 = (m as u32) % 4;
        proof {
            assert(amount as int == -(m as int));
            assert(m as int == 4 * ((m as int) / 4) + k);
        }
        (4 - k) % 4
    }
}

impl CustomTileCollider {
    /// The collider mirrored across the vertical center line of the tile.
    #[verifier::loop_isolation(false)]
    pub fn x_flipped(self) -> (r: CustomTileCollider)
        requires
            forall|i: int|
                0 <= i < self.vertices@.len() ==> coord_ok(#[trigger] self.vertices@[i], 1000),
        ensures
            r.vertices@ == self.vertices@.map_values(|v: Vector2| spec_x_flip(v)),
            r.triangles@ == self.triangles@,
    {
        let mut flipped: Vec<Vector2> = Vec::new();
        let n: usize = self.vertices.len();
        let mut i: usize = 0;
        while i < n
            invariant
                0 <= i <= n,
                n == self.vertices@.len(),
                forall|k: int|
                    0 <= k < self.vertices@.len() ==> coord_ok(#[trigger] self.vertices@[k], 1000),
                flipped@ =~= self.vertices@.take(i as int).map_values(
                    |v: Vector2| spec_x_flip(v),
                ),
            decreases n - i,
        {
            let v = self.vertices[i];
            flipped.push(Vector2 { x: 1000 - v.x, y: v.y });
            proof {
                assert(self.vertices@.take(i + 1 as int).drop_last() =~= self.vertices@.take(
                    i as int,
                ));
                assert(flipped@ =~= self.vertices@.take(i + 1 as int).map_values(
                    |v: Vector2| spec_x_flip(v),
                ));
            }
            i = i + 1;
        }
        proof {
            assert(self.vertices@.take(n as int) =~= self.vertices@);
        }
        CustomTileCollider { vertices: flipped, triangles: self.triangles }
    }

    /// The collider turned `amount` quarter turns counterclockwise about the
    /// tile center; negative amounts turn clockwise.
    #[verifier::loop_isolation(false)]
    pub fn rotated(self, amount: i8) -> (r: CustomTileCollider)
        requires
            forall|i: int|
                0 <= i < self.vertices@.len() ==> coord_ok(#[trigger] self.vertices@[i], 3000),
        ensures
            r.vertices@ == self.vertices@.map_values(
                |v: Vector2| spec_turns(v, spec_turn_count(amount)),
            ),
            r.triangles@ == self.triangles@,
    {
        let turns: u32 = turn_count(amount);
        let mut moved: Vec<Vector2> = Vec::new();
        let n: usize = self.vertices.len();
        let mut i: usize = 0;
        while i < n
            invariant
                0 <= i <= n,
                n == self.vertices@.len(),
                turns as int == spec_turn_count(amount),
                turns <= 3,
                forall|k: int|
                    0 <= k < self.vertices@.len() ==> coord_ok(#[trigger] self.vertices@[k], 3000),
                moved@ =~= self.vertices@.take(i as int).map_values(
                    |v: Vector2| spec_turns(v, spec_turn_count(amount)),
                ),
            decreases n - i,
        {
            let v = self.vertices[i];
            proof {
                assert(spec_turns(v, 0) == v);
                assert(spec_turns(v, 1) == spec_quarter_turn(spec_turns(v, 0)));
                assert(spec_turns(v, 2) == spec_quarter_turn(spec_turns(v, 1)));
                assert(spec_turns(v, 3) == spec_quarter_turn(spec_turns(v, 2)));
            }
            let w = if turns == 0 {
                v
            } else if turns == 1 {
                quarter_turn(v)
            } else if turns == 2 {
                let w1 = quarter_turn(v);
                assert(coord_ok(w1, 2000));
                quarter_turn(w1)
            } else {
                let w1 = quarter_turn(v);
                assert(coord_ok(w1, 2000));
                let w2 = quarter_turn(w1);
                assert(coord_ok(w2, 1000));
                quarter_turn(w2)
            };
            assert(w == spec_turns(v, turns as int));
            moved.push(w);
            proof {
                assert(self.vertices@.take(i + 1 as int).drop_last() =~= self.vertices@.take(
                    i as int,
                ));
                assert(moved@ =~= self.vertices@.take(i + 1 as int).map_values(
                    |v: Vector2| spec_turns(v, spec_turn_count(amount)),
                ));
            }
            i = i + 1;
        }
        proof {
            assert(self.vertices@.take(n as int) =~= self.vertices@);
        }
        CustomTileCollider { vertices: moved, triangles: self.triangles }
    }
}

// ---------------------------------------------------------------------------
// Collider categories
// ---------------------------------------------------------------------------
/// Supported collider types for tiles.
#[derive(Clone, Debug, PartialEq)]
pub enum TileCollider {
    /// No collider.
    Empty,
    /// Rectangle collider that covers the full tile.
    Rectangle,
    /// User-defined collider holding the triangles of an arbitrary shape.
    Custom(CustomTileCollider),
    /// Mesh collider; the mesh is generated elsewhere.
    Mesh,
}

impl Default for TileCollider {
    fn default() -> (r: Self)
        ensures
            r is Empty,
    {
        TileCollider::Empty
    }
}

impl TileCollider {
    /// This collider is empty.
    pub fn is_none(&self) -> (r: bool)
        ensures
            r == (*self is Empty),
    {
        matches!(self, TileCollider::Empty)
    }

    /// This collider is a full rectangle.
    pub fn is_rectangle(&self) -> (r: bool)
        ensures
            r == (*self is Rectangle),
    {
        matches!(self, TileCollider::Rectangle)
    }

    /// This collider is a custom mesh.
    pub fn is_custom(&self) -> (r: bool)
        ensures
            r == (*self is Custom),
    {
        matches!(self, TileCollider::Custom(_))
    }

    /// The collider mirrored across the vertical center line of the tile.
    /// Only a custom collider carries vertices to move.
    pub fn x_flipped(self) -> (r: Self)
        requires
            self matches TileCollider::Custom(c) ==> forall|i: int|
                0 <= i < c.vertices@.len() ==> coord_ok(#[trigger] c.vertices@[i], 1000),
        ensures
            match self {
                TileCollider::Custom(c) => r matches TileCollider::Custom(f) && f.vertices@
                    == c.vertices@.map_values(|v: Vector2| spec_x_flip(v)) && f.triangles@
                    == c.triangles@,
                _ => r == self,
            },
    {
        if let TileCollider::Custom(collider) = self {
            TileCollider::Custom(collider.x_flipped())
        } else {
            self
        }
    }

    /// The collider turned `amount` quarter turns counterclockwise about the
    /// tile center. Only a custom collider carries vertices to move.
    pub fn rotated(self, amount: i8) -> (r: Self)
        requires
            self matches TileCollider::Custom(c) ==> forall|i: int|
                0 <= i < c.vertices@.len() ==> coord_ok(#[trigger] c.vertices@[i], 3000),
        ensures
            match self {
                TileCollider::Custom(c) => r matches TileCollider::Custom(f) && f.vertices@
                    == c.vertices@.map_values(|v: Vector2| spec_turns(v, spec_turn_count(amount)))
                    && f.triangles@ == c.triangles@,
                _ => r == self,
            },
    {
        if let TileCollider::Custom(collider) = self {
            TileCollider::Custom(collider.rotated(amount))
        } else {
            self
        }
    }
}

// ---------------------------------------------------------------------------
// Building collider geometry
// ---------------------------------------------------------------------------
// A collider contributes vertices and triangles to a mesh that already holds
// `origin` vertices: the local vertices below are appended after the caller
// applies its world transform to them (a floating-point step that lives with
// the caller), and the triangles index those vertices, shifted by `origin`.
impl CustomTileCollider {
    /// The collider's triangles with every corner shifted by `origin`.
    #[verifier::loop_isolation(false)]
    pub fn shape_triangles(&self, origin: u32) -> (r: Vec<TriangleDefinition>)
        requires
            forall|i: int, k: int|
                0 <= i < self.triangles@.len() && 0 <= k < 3 ==> (
                #[trigger] self.triangles@[i].idxs()[k]) + origin <= u32::MAX,
        ensures
            r@.map_values(|t: TriangleDefinition| t.idxs()) == self.spec_triangles().map_values(
                |t: Seq<u32>| seq![(t[0] + origin) as u32, (t[1] + origin) as u32, (t[2] + origin) as u32],
            ),
    {
        let ghost f: spec_fn(Seq<u32>) -> Seq<u32> = |t: Seq<u32>|
            seq![(t[0] + origin) as u32, (t[1] + origin) as u32, (t[2] + origin) as u32];
        let mut out: Vec<TriangleDefinition> = Vec::new();
        let n: usize = self.triangles.len();
        let mut i: usize = 0;
        proof {
            assert(out@.map_values(|t: TriangleDefinition| t.idxs()) =~= self.spec_triangles().map_values(f).take(0));
        }
        while i < n
            invariant
                0 <= i <= n,
                n == self.triangles@.len(),
                forall|j: int, k: int|
                    0 <= j < self.triangles@.len() && 0 <= k < 3 ==> (
                    #[trigger] self.triangles@[j].idxs()[k]) + origin <= u32::MAX,
                out@.map_values(|t: TriangleDefinition| t.idxs()) =~= self.spec_triangles().map_values(f).take(i as int),
            decreases n - i,
        {
            let t = &self.triangles[i];
            proof {
                assert(self.triangles@[i as int].idxs()[0] + origin <= u32::MAX);
                assert(self.triangles@[i as int].idxs()[1] + origin <= u32::MAX);
                assert(self.triangles@[i as int].idxs()[2] + origin <= u32::MAX);
            }
            let moved = TriangleDefinition(
                [t.0[0] + origin, t.0[1] + origin, t.0[2] + origin],
            );
            out.push(moved);
            proof {
                let g = |t: TriangleDefinition| t.idxs();
                assert(moved.idxs() =~= f(self.spec_triangles()[i as int]));
                assert(out@.map_values(g) =~= self.spec_triangles().map_values(f).take(i + 1 as int));
            }
            i = i + 1;
        }
        proof {
            assert(self.spec_triangles().map_values(f).take(n as int) =~= self.spec_triangles().map_values(f));
        }
        out
    }

    /// The collider's vertices in tile-local coordinates, ready for the
    /// caller's transform.
    #[verifier::loop_isolation(false)]
    pub fn local_vertices(&self) -> (r: Vec<Vector2>)
        ensures
            r@ == self.vertices@,
    {
        let mut out: Vec<Vector2> = Vec::new();
        let n: usize = self.vertices.len();
        let mut i: usize = 0;
        while i < n
            invariant
                0 <= i <= n,
                n == self.vertices@.len(),
                out@ =~= self.vertices@.take(i as int),
            decreases n - i,
        {
            out.push(self.vertices[i]);
            proof {
                assert(out@ =~= self.vertices@.take(i + 1 as int));
            }
            i = i + 1;
        }
        proof {
            assert(self.vertices@.take(n as int) =~= self.vertices@);
        }
        out
    }

    /// Nothing here needs saving to disk; the collider lives inside the tile
    /// set that owns it.
    pub fn can_be_saved(&self) -> (r: bool)
        ensures
            !r,
    {
        false
    }
}

/// The tile-local corner vertices of the full-tile rectangle collider.
pub open spec fn spec_rectangle_corners() -> Seq<Vector2> {
    seq![
        Vector2 { x: 0, y: 0 },
        Vector2 { x: 1000, y: 0 },
        Vector2 { x: 1000, y: 1000 },
        Vector2 { x: 0, y: 1000 },
    ]
}

impl TileCollider {
    /// The vertices this collider contributes, in tile-local coordinates: the
    /// four tile corners for a rectangle, the stored vertices for a custom
    /// shape, nothing otherwise.
    pub fn local_vertices(&self) -> (r: Vec<Vector2>)
        ensures
            r@ == match self {
                TileCollider::Rectangle => spec_rectangle_corners(),
                TileCollider::Custom(c) => c.vertices@,
                _ => Seq::<Vector2>::empty(),
            },
    {
        match self {
            TileCollider::Rectangle => {
                let mut out: Vec<Vector2> = Vec::new();
                out.push(Vector2 { x: 0, y: 0 });
                out.push(Vector2 { x: 1000, y: 0 });
                out.push(Vector2 { x: 1000, y: 1000 });
                out.push(Vector2 { x: 0, y: 1000 });
                proof {
                    assert(out@ =~= spec_rectangle_corners());
                }
                out
            },
            TileCollider::Custom(c) => c.local_vertices(),
            _ => Vec::new(),
        }
    }

    /// The triangles this collider contributes to a mesh that already holds
    /// `origin` vertices: two for the rectangle, the stored triangles shifted
    /// by `origin` for a custom shape, nothing otherwise.
    pub fn shape_triangles(&self, origin: u32) -> (r: Vec<TriangleDefinition>)
        requires
            self is Rectangle ==> origin + 3 <= u32::MAX,
            self matches TileCollider::Custom(c) ==> forall|i: int, k: int|
                0 <= i < c.triangles@.len() && 0 <= k < 3 ==> (
                #[trigger] c.triangles@[i].idxs()[k]) + origin <= u32::MAX,
        ensures
            match self {
                TileCollider::Rectangle => r@.map_values(|t: TriangleDefinition| t.idxs())
                    =~= seq![
                    seq![origin, (origin + 1) as u32, (origin + 2) as u32],
                    seq![origin, (origin + 2) as u32, (origin + 3) as u32],
                ],
                TileCollider::Custom(c) => r@.map_values(|t: TriangleDefinition| t.idxs())
                    == c.spec_triangles().map_values(
                    |t: Seq<u32>| seq![(t[0] + origin) as u32, (t[1] + origin) as u32, (t[2] + origin) as u32],
                ),
                _ => r@ == Seq::<TriangleDefinition>::empty(),
            },
    {
        match self {
            TileCollider::Rectangle => {
                let mut out: Vec<TriangleDefinition> = Vec::new();
                out.push(TriangleDefinition([origin, origin + 1, origin + 2]));
                out.push(TriangleDefinition([origin, origin + 2, origin + 3]));
                proof {
                    assert(out@.map_values(|t: TriangleDefinition| t.idxs())
                        =~= seq![
                        seq![origin, (origin + 1) as u32, (origin + 2) as u32],
                        seq![origin, (origin + 2) as u32, (origin + 3) as u32],
                    ]);
                }
                out
            },
            TileCollider::Custom(c) => c.shape_triangles(origin),
            _ => {
                let out: Vec<TriangleDefinition> = Vec::new();
                proof {
                    assert(out@ =~= Seq::<TriangleDefinition>::empty());
                }
                out
            },
        }
    }
}

} // verus!
