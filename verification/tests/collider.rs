use scene_core::codec::{decode_collider, encode_collider};
use scene_core::numbers::{milli_string, parse_milli, parse_u32, NumberError};
use scene_core::tile_collider::{
    CustomTileCollider, CustomTileColliderStrError, TileCollider, TriangleDefinition, Vector2,
};

#[test]
fn collider() {
    let col = CustomTileCollider::from_str("0,0; 1,1; 1,0; 0,1,2").unwrap();
    assert_eq!(col.vertices.len(), 3);
    assert_eq!(col.vertices[0], Vector2::new(0, 0));
    assert_eq!(col.vertices[1], Vector2::new(1000, 1000));
    assert_eq!(col.vertices[2], Vector2::new(1000, 0));
    assert_eq!(col.triangles.len(), 1);
    assert_eq!(col.triangles[0], TriangleDefinition([0, 1, 2]));
}

#[test]
fn collider_display() {
    let col = CustomTileCollider::from_str("0,0; 1,1; 1,0.333; 0,1,2").unwrap();
    assert_eq!(col.display_string(), "(0, 0) (1, 1) (1, 0.333) [0, 1, 2]");
}

#[test]
fn parse_and_render_round_trip() {
    let col = CustomTileCollider::from_str("0,0 1,1 1,0 0,1,2").unwrap();
    assert_eq!(col.vertices.len(), 3);
    assert_eq!(col.vertices[0], Vector2::new(0, 0));
    assert_eq!(col.vertices[1], Vector2::new(1000, 1000));
    assert_eq!(col.vertices[2], Vector2::new(1000, 0));
    assert_eq!(col.triangles, vec![TriangleDefinition([0, 1, 2])]);
    assert_eq!(col.display_string(), "(0, 0) (1, 1) (1, 0) [0, 1, 2]");
    // Reading the rendered text back yields the same collider.
    let again = CustomTileCollider::from_str(&col.display_string()).unwrap();
    assert_eq!(again, col);
}

#[test]
fn group_too_short() {
    let e = CustomTileCollider::from_str("7").unwrap_err();
    assert_eq!(e, CustomTileColliderStrError::GroupTooShort);
}

#[test]
fn group_too_long() {
    let e = CustomTileCollider::from_str("7,7,8,9").unwrap_err();
    assert_eq!(e, CustomTileColliderStrError::GroupTooLong(4));
}

#[test]
fn index_out_of_bounds() {
    let e = CustomTileCollider::from_str("0,0 1,1 0,1,2").unwrap_err();
    assert_eq!(e, CustomTileColliderStrError::IndexOutOfBounds(2));
}

#[test]
fn missing_number() {
    let e = CustomTileCollider::from_str(",5").unwrap_err();
    assert_eq!(e, CustomTileColliderStrError::MissingNumber);
}

#[test]
fn coordinate_parse_error() {
    let e = CustomTileCollider::from_str("0,0.2.3").unwrap_err();
    assert_eq!(
        e,
        CustomTileColliderStrError::CoordinateParseError(NumberError::InvalidDigit)
    );
}

#[test]
fn index_parse_error() {
    let e = CustomTileCollider::from_str("0,1.2,3").unwrap_err();
    assert_eq!(
        e,
        CustomTileColliderStrError::IndexParseError(NumberError::InvalidDigit)
    );
}

#[test]
fn error_messages() {
    assert_eq!(
        CustomTileColliderStrError::GroupTooShort.message(),
        "Each group must have at least 2 numbers."
    );
    assert_eq!(
        CustomTileColliderStrError::GroupTooLong(4).message(),
        "A group has 4 numbers. No group may be longer than 3."
    );
    assert_eq!(
        CustomTileColliderStrError::IndexOutOfBounds(2).message(),
        "Triangle index 2 does not match any of the given vertices."
    );
    assert_eq!(
        CustomTileColliderStrError::MissingNumber.message(),
        "Numbers in a group must be separated by commas."
    );
}

#[test]
fn numbers_parse() {
    assert_eq!(parse_milli("0.4"), Ok(400));
    assert_eq!(parse_milli("-1"), Ok(-1000));
    assert_eq!(parse_milli("-3.14"), Ok(-3140));
    assert_eq!(parse_milli("1."), Ok(1000));
    assert_eq!(parse_milli(".5"), Ok(500));
    assert_eq!(parse_milli("0.1234"), Ok(123));
    assert_eq!(parse_milli("0.1235"), Ok(124));
    assert_eq!(parse_milli("0.9995"), Ok(1000));
    assert_eq!(parse_milli("-"), Err(NumberError::InvalidDigit));
    assert_eq!(parse_milli("."), Err(NumberError::InvalidDigit));
    assert_eq!(parse_milli("1.2.3"), Err(NumberError::InvalidDigit));
    assert_eq!(parse_milli(""), Err(NumberError::Empty));
    assert_eq!(
        parse_milli("99999999999999999999"),
        Err(NumberError::Overflow)
    );
    assert_eq!(parse_u32("42"), Ok(42));
    assert_eq!(parse_u32("4294967295"), Ok(u32::MAX));
    assert_eq!(parse_u32("4294967296"), Err(NumberError::Overflow));
    assert_eq!(parse_u32("1.2"), Err(NumberError::InvalidDigit));
    assert_eq!(parse_u32("-1"), Err(NumberError::InvalidDigit));
}

#[test]
fn numbers_render() {
    assert_eq!(milli_string(0), "0");
    assert_eq!(milli_string(400), "0.4");
    assert_eq!(milli_string(-3140), "-3.14");
    assert_eq!(milli_string(333), "0.333");
    assert_eq!(milli_string(1000), "1");
    assert_eq!(milli_string(50), "0.05");
    assert_eq!(milli_string(-500), "-0.5");
}

#[test]
fn collider_categories() {
    assert!(TileCollider::Empty.is_none());
    assert!(!TileCollider::Empty.is_rectangle());
    assert!(TileCollider::Rectangle.is_rectangle());
    let c = TileCollider::Custom(CustomTileCollider::default());
    assert!(c.is_custom());
    assert!(!c.is_none());
    assert!(TileCollider::default().is_none());
}

#[test]
fn transforms() {
    let col = CustomTileCollider::from_str("0,0 1,0.25 0,0,1").unwrap();
    let flipped = col.clone().x_flipped();
    assert_eq!(flipped.vertices[0], Vector2::new(1000, 0));
    assert_eq!(flipped.vertices[1], Vector2::new(0, 250));
    assert_eq!(flipped.triangles, col.triangles);
    // One counterclockwise quarter turn about the tile center.
    let turned = col.clone().rotated(1);
    assert_eq!(turned.vertices[0], Vector2::new(1000, 0));
    assert_eq!(turned.vertices[1], Vector2::new(750, 1000));
    // Four quarter turns take everything back; so do -4.
    assert_eq!(col.clone().rotated(4).vertices, col.vertices);
    assert_eq!(col.clone().rotated(-4).vertices, col.vertices);
    assert_eq!(
        col.clone().rotated(-1).vertices,
        col.clone().rotated(3).vertices
    );
}

#[test]
fn shape_geometry() {
    let rect = TileCollider::Rectangle;
    let verts = rect.local_vertices();
    assert_eq!(
        verts,
        vec![
            Vector2::new(0, 0),
            Vector2::new(1000, 0),
            Vector2::new(1000, 1000),
            Vector2::new(0, 1000)
        ]
    );
    let tris = rect.shape_triangles(10);
    assert_eq!(
        tris,
        vec![
            TriangleDefinition([10, 11, 12]),
            TriangleDefinition([10, 12, 13])
        ]
    );
    let custom = TileCollider::Custom(CustomTileCollider::from_str("0,0 1,1 1,0 0,1,2").unwrap());
    let tris = custom.shape_triangles(5);
    assert_eq!(tris, vec![TriangleDefinition([5, 6, 7])]);
    assert_eq!(TileCollider::Empty.local_vertices(), vec![]);
    assert_eq!(TileCollider::Mesh.shape_triangles(0), vec![]);
}

#[test]
fn collider_serialization_round_trip() {
    let col = CustomTileCollider::from_str("0,0 1,1 1,0.333 -0.5,2 0,1,2 1,2,3").unwrap();
    let mut words: Vec<u64> = Vec::new();
    encode_collider(&col, &mut words);
    let (back, end) = decode_collider(&words, 0).unwrap();
    assert_eq!(end, words.len());
    assert_eq!(back, col);
    // The text rendering agrees too.
    assert_eq!(back.display_string(), col.display_string());
}
