use tilemap_editor::document::{decode, encode, Document, SpriteSheet};
use tilemap_editor::editor::{EditError, Editor};
use tilemap_editor::tile::TileRegion;

fn region(u_min: f32, v_min: f32, u_max: f32, v_max: f32) -> TileRegion {
    TileRegion::new(u_min.to_bits(), v_min.to_bits(), u_max.to_bits(), v_max.to_bits())
}

fn sample_document() -> Document {
    Document {
        sprite_sheet: SpriteSheet::new("ab".to_string(), 2, 3),
        tiles: vec![((1, -2), TileRegion::new(1, 2, 3, 4))],
    }
}

#[test]
fn encode_gives_exact_bytes() {
    let bytes = encode(&sample_document());
    let mut expected: Vec<u8> = vec![2, 0, 0, 0, 0, 0, 0, 0, b'a', b'b'];
    expected.extend_from_slice(&[2, 0, 0, 0, 0, 0, 0, 0]);
    expected.extend_from_slice(&[3, 0, 0, 0, 0, 0, 0, 0]);
    expected.extend_from_slice(&[1, 0, 0, 0, 0, 0, 0, 0]);
    expected.extend_from_slice(&[1, 0, 0, 0, 0xfe, 0xff, 0xff, 0xff]);
    expected.extend_from_slice(&[1, 0, 0, 0, 2, 0, 0, 0, 3, 0, 0, 0, 4, 0, 0, 0]);
    assert_eq!(bytes, expected);
}

#[test]
fn encode_matches_bincode_layout() {
    let doc = Document {
        sprite_sheet: SpriteSheet::new("sheets/tiles.png".to_string(), 4, 2),
        tiles: vec![
            ((0, 0), region(0.0, 0.0, 0.25, 0.5)),
            ((-3, 7), region(0.75, 0.5, 1.0, 1.0)),
        ],
    };
    let same = (
        ("sheets/tiles.png".to_string(), 4u64, 2u64),
        vec![
            ((0i32, 0i32), (0.0f32, 0.0f32, 0.25f32, 0.5f32)),
            ((-3i32, 7i32), (0.75f32, 0.5f32, 1.0f32, 1.0f32)),
        ],
    );
    assert_eq!(encode(&doc), bincode::serialize(&same).unwrap());
}

#[test]
fn decode_reads_back_encoding() {
    let doc = sample_document();
    let back = decode(&encode(&doc)).unwrap();
    assert_eq!(back.sprite_sheet.path, "ab");
    assert_eq!(back.sprite_sheet.rows, 2);
    assert_eq!(back.sprite_sheet.columns, 3);
    assert_eq!(back.tiles, doc.tiles);
}

#[test]
fn decode_keeps_non_ascii_path() {
    let doc = Document { sprite_sheet: SpriteSheet::new("tuiles/éé.png".to_string(), 1, 1), tiles: vec![] };
    let bytes = encode(&doc);
    assert_eq!(bytes.len(), 32 + "tuiles/éé.png".len());
    assert_eq!(decode(&bytes).unwrap().sprite_sheet.path, "tuiles/éé.png");
}

#[test]
fn decode_rejects_truncated() {
    let bytes = encode(&sample_document());
    for n in 0..bytes.len() {
        assert!(decode(&bytes[..n].to_vec()).is_none());
    }
    assert!(decode(&Vec::new()).is_none());
}

#[test]
fn decode_rejects_trailing_bytes() {
    let mut bytes = encode(&sample_document());
    bytes.push(0);
    assert!(decode(&bytes).is_none());
}

#[test]
fn decode_rejects_bad_utf8_path() {
    let mut bytes = encode(&sample_document());
    bytes[8] = 0xff;
    assert!(decode(&bytes).is_none());
}

#[test]
fn decode_rejects_huge_lengths() {
    let mut bytes = encode(&sample_document());
    bytes[7] = 0xff;
    assert!(decode(&bytes).is_none());
    let mut bytes = encode(&sample_document());
    bytes[10 + 16 + 7] = 0xff;
    assert!(decode(&bytes).is_none());
}

#[test]
fn save_then_load_round_trips() {
    let mut e = Editor::new();
    e.set_sprite_sheet(SpriteSheet::new("tiles.png".to_string(), 4, 4));
    e.commit_stroke(&vec![(0, 0), (3, -1), (9, 9)], region(0.25, 0.25, 0.5, 0.5));
    e.commit_stroke(&vec![(3, -1)], region(0.0, 0.0, 0.25, 0.25));
    e.undo();
    let bytes = e.save().unwrap();
    let mut f = Editor::new();
    f.commit_stroke(&vec![(100, 100)], region(0.0, 0.0, 1.0, 1.0));
    assert_eq!(f.load(&bytes), Ok(()));
    assert_eq!(f.tiles(), e.tiles());
    let sheet = f.sprite_sheet().as_ref().unwrap();
    assert_eq!(sheet.path, "tiles.png");
    assert_eq!((sheet.rows, sheet.columns), (4, 4));
    assert_eq!(f.undo_len(), 0);
    assert_eq!(f.redo_len(), 0);
}

#[test]
fn failed_load_changes_nothing() {
    let mut e = Editor::new();
    e.commit_stroke(&vec![(1, 1)], region(0.0, 0.0, 1.0, 1.0));
    assert_eq!(e.load(&vec![1, 2, 3]), Err(EditError::Decode));
    assert_eq!(e.tiles().len(), 1);
    assert_eq!(e.undo_len(), 1);
    assert!(e.sprite_sheet().is_none());
}

#[test]
fn slicing_follows_spritesheet() {
    let mut e = Editor::new();
    e.set_slicing(3, 3);
    assert!(e.sprite_sheet().is_none());
    e.set_sprite_sheet(SpriteSheet::new("a.png".to_string(), 1, 1));
    e.set_slicing(3, 5);
    let doc = e.document().unwrap();
    assert_eq!((doc.sprite_sheet.rows, doc.sprite_sheet.columns), (3, 5));
    assert!(doc.tiles.is_empty());
}

#[test]
fn load_keeps_first_place_and_last_value() {
    let doc = Document {
        sprite_sheet: SpriteSheet::new("t.png".to_string(), 1, 1),
        tiles: vec![
            ((5, 5), TileRegion::new(1, 1, 1, 1)),
            ((0, 0), TileRegion::new(2, 2, 2, 2)),
            ((5, 5), TileRegion::new(3, 3, 3, 3)),
        ],
    };
    let mut e = Editor::new();
    assert_eq!(e.load(&encode(&doc)), Ok(()));
    assert_eq!(
        e.tiles(),
        vec![((5, 5), TileRegion::new(3, 3, 3, 3)), ((0, 0), TileRegion::new(2, 2, 2, 2))]
    );
}
