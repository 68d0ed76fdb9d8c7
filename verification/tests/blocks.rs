//! Blocks, resolved to chunks.

use dxf::{Color, LineWeight};
use tabulon::blocks::{
    array_path, find_entity, find_layer, resolve_block, resolve_blocks, BlockTable, Chunk,
    EntityRef, LoadError, PathPart, Placement,
};
use tabulon::dxf_file::{
    Block, Circle, DxfDrawing, DxfEntity, DxfPoint, EntityCommon, EntityType, Insert, Layer, Line,
    Solid, Spline,
};
use tabulon::number::Real;
use tabulon::path::path_from_entity;

fn num(x: f64) -> Real {
    Real::from_bits(x.to_bits())
}

fn at(x: f64, y: f64) -> DxfPoint {
    DxfPoint { x: num(x), y: num(y), z: num(0.0) }
}

fn facing(z: f64) -> DxfPoint {
    DxfPoint { x: num(0.0), y: num(0.0), z: num(z) }
}

fn entity(weight: i16, color: Color, specific: EntityType) -> DxfEntity {
    DxfEntity {
        common: EntityCommon {
            handle: 1,
            layer: String::from("0"),
            is_visible: true,
            lineweight_enum_value: weight,
            color,
            color_24_bit: 0,
            transparency: 0,
        },
        specific,
        arcs_vanish: false,
    }
}

fn line(weight: i16, color: u8) -> DxfEntity {
    entity(
        weight,
        Color::from_index(color),
        EntityType::Line(Line {
            p1: at(0.0, 0.0),
            p2: at(1.0, 0.0),
            extrusion_direction: facing(1.0),
        }),
    )
}

fn insert_of(name: &str, rows: i16, columns: i16, z: f64) -> EntityType {
    EntityType::Insert(Insert {
        name: String::from(name),
        location: at(0.0, 0.0),
        x_scale_factor: num(1.0),
        y_scale_factor: num(1.0),
        rotation: num(0.0),
        row_count: rows,
        column_count: columns,
        row_spacing: num(1.0),
        column_spacing: num(1.0),
        extrusion_direction: facing(z),
    })
}

fn insert(name: &str) -> DxfEntity {
    entity(50, Color::from_index(5), insert_of(name, 1, 1, 1.0))
}

fn layer(name: &str, handle: u64) -> Layer {
    Layer {
        name: String::from(name),
        handle,
        is_layer_on: true,
        color: Color::from_index(3),
        line_weight: LineWeight::by_layer(),
    }
}

fn drawing(blocks: Vec<(&str, Vec<DxfEntity>)>) -> DxfDrawing {
    DxfDrawing {
        layers: vec![layer("0", 16)],
        styles: vec![],
        blocks: blocks
            .into_iter()
            .map(|(name, entities)| Block { name: String::from(name), entities })
            .collect(),
        entities: vec![],
        other_handles: vec![],
    }
}

fn in_block(block: usize, entity: usize) -> EntityRef {
    EntityRef { block: Some(block), entity }
}

/// Line weight, color, and the entities that the path is made of.
fn summary(chunks: &[Chunk]) -> Vec<(i16, i16, Vec<EntityRef>)> {
    chunks
        .iter()
        .map(|c| (c.line_weight, c.color, c.path.iter().map(|p| p.source).collect()))
        .collect()
}

fn resolved(d: &DxfDrawing, name: &str) -> Option<Vec<(i16, i16, Vec<EntityRef>)>> {
    let table = resolve_blocks(d).unwrap();
    assert_eq!(table.contains(&String::from(name)), table.get(&String::from(name)).is_some());
    table.get(&String::from(name)).map(|chunks| summary(chunks))
}

#[test]
fn equal_styles_share_a_chunk() {
    let d = drawing(vec![("a", vec![line(50, 1), line(50, 1), line(50, 2), line(50, 1)])]);
    assert_eq!(
        resolved(&d, "a"),
        Some(vec![
            (50, 1, vec![in_block(0, 0), in_block(0, 1)]),
            (50, 2, vec![in_block(0, 2)]),
            (50, 1, vec![in_block(0, 3)]),
        ])
    );
}

#[test]
fn solids_have_a_weight_of_their_own() {
    let solid = EntityType::Solid(Solid {
        first_corner: at(0.0, 0.0),
        second_corner: at(1.0, 0.0),
        third_corner: at(0.0, 1.0),
        fourth_corner: at(1.0, 1.0),
        extrusion_direction: facing(1.0),
    });
    let d = drawing(vec![("a", vec![entity(50, Color::from_index(1), solid), line(50, 1)])]);
    assert_eq!(
        resolved(&d, "a"),
        Some(vec![
            // The style that the block starts with is that of an outline.
            (50, 1, vec![]),
            (i16::MIN, 1, vec![in_block(0, 0)]),
            (50, 1, vec![in_block(0, 1)]),
        ])
    );
}

#[test]
fn what_is_by_layer_comes_from_the_layer() {
    let by_layer = entity(
        -2,
        Color::by_layer(),
        EntityType::Line(Line {
            p1: at(0.0, 0.0),
            p2: at(1.0, 0.0),
            extrusion_direction: facing(1.0),
        }),
    );
    let mut d = drawing(vec![("a", vec![by_layer])]);
    assert_eq!(resolved(&d, "a"), Some(vec![(25, 3, vec![in_block(0, 0)])]));
    d.layers[0].color = Color::by_layer();
    assert_eq!(resolved(&d, "a"), Some(vec![(25, 7, vec![in_block(0, 0)])]));
}

#[test]
fn what_is_by_block_waits_for_the_insert() {
    let by_block = |specific: EntityType| entity(-1, Color::by_block(), specific);
    let plain = EntityType::Line(Line {
        p1: at(0.0, 0.0),
        p2: at(1.0, 0.0),
        extrusion_direction: facing(1.0),
    });
    let d = drawing(vec![
        ("inner", vec![by_block(plain)]),
        ("styled", vec![insert("inner")]),
        ("passed", vec![by_block(insert_of("inner", 1, 1, 1.0))]),
    ]);
    assert_eq!(resolved(&d, "inner"), Some(vec![(-1, 0, vec![in_block(0, 0)])]));
    assert_eq!(resolved(&d, "styled"), Some(vec![(50, 5, vec![in_block(0, 0)])]));
    assert_eq!(resolved(&d, "passed"), Some(vec![(-1, 0, vec![in_block(0, 0)])]));
}

#[test]
fn inserts_cut_chunks() {
    let d = drawing(vec![
        ("inner", vec![line(70, 2)]),
        ("outer", vec![line(50, 5), insert("inner"), line(50, 5)]),
    ]);
    assert_eq!(
        resolved(&d, "outer"),
        Some(vec![
            (50, 5, vec![in_block(1, 0)]),
            (70, 2, vec![in_block(0, 0)]),
            (50, 5, vec![in_block(1, 2)]),
        ])
    );
}

#[test]
fn order_of_blocks_does_not_matter() {
    let d = drawing(vec![
        ("top", vec![insert("middle")]),
        ("middle", vec![insert("bottom")]),
        ("bottom", vec![line(70, 2)]),
    ]);
    assert_eq!(resolved(&d, "top"), Some(vec![(70, 2, vec![in_block(2, 0)])]));
}

#[test]
fn placements_are_kept_from_the_inside_out() {
    let d = drawing(vec![
        ("bottom", vec![line(70, 2)]),
        ("middle", vec![entity(50, Color::from_index(5), insert_of("bottom", 2, 1, 1.0))]),
        ("top", vec![entity(50, Color::from_index(5), insert_of("middle", 1, 2, 1.0))]),
    ]);
    let table = resolve_blocks(&d).unwrap();
    let chunks = table.get(&String::from("top")).unwrap();
    assert_eq!(chunks.len(), 1);
    let cells: Vec<Vec<(EntityRef, i16, i16)>> = chunks[0]
        .path
        .iter()
        .map(|p| p.placements.iter().map(|q| (q.insert, q.row, q.column)).collect())
        .collect();
    let inner = in_block(1, 0);
    let outer = in_block(2, 0);
    assert_eq!(
        cells,
        vec![
            vec![(inner, 0, 0), (outer, 0, 0)],
            vec![(inner, 1, 0), (outer, 0, 0)],
            vec![(inner, 0, 0), (outer, 0, 1)],
            vec![(inner, 1, 0), (outer, 0, 1)],
        ]
    );
}

#[test]
fn arrays_run_row_by_row() {
    let path = vec![PathPart { source: in_block(0, 0), placements: vec![] }];
    let insert = EntityRef { block: None, entity: 7 };
    let cells: Vec<Placement> =
        array_path(&path, insert, 2, 3).into_iter().map(|p| p.placements[0]).collect();
    let expected: Vec<Placement> = vec![(0, 0), (0, 1), (0, 2), (1, 0), (1, 1), (1, 2)]
        .into_iter()
        .map(|(row, column)| Placement { insert, row, column })
        .collect();
    assert_eq!(cells, expected);
    assert!(array_path(&path, insert, 0, 3).is_empty());
    assert!(array_path(&path, insert, 3, -1).is_empty());
}

#[test]
fn circles_of_blocks_stay_open() {
    let d = drawing(vec![
        ("self", vec![insert("self")]),
        ("ping", vec![insert("pong")]),
        ("pong", vec![insert("ping")]),
        ("lost", vec![insert("nowhere")]),
        ("fine", vec![line(50, 1)]),
        ("waits", vec![line(50, 1), insert("lost")]),
    ]);
    for open in ["self", "ping", "pong", "lost", "waits", "nowhere"] {
        assert_eq!(resolved(&d, open), None);
    }
    assert_eq!(resolved(&d, "fine"), Some(vec![(50, 1, vec![in_block(4, 0)])]));
}

#[test]
fn empty_blocks_are_no_progress() {
    // Nothing but an empty block is resolved at first, so that is where it ends.
    let d = drawing(vec![("outer", vec![insert("empty")]), ("empty", vec![])]);
    assert_eq!(resolved(&d, "empty"), Some(vec![]));
    assert_eq!(resolved(&d, "outer"), None);
    // In the other order, or with any other block to resolve, all is well.
    let d = drawing(vec![("empty", vec![]), ("outer", vec![insert("empty")])]);
    assert_eq!(resolved(&d, "outer"), Some(vec![]));
    let d = drawing(vec![
        ("outer", vec![insert("empty")]),
        ("empty", vec![]),
        ("other", vec![line(50, 1)]),
    ]);
    assert_eq!(resolved(&d, "outer"), Some(vec![]));
}

#[test]
fn turned_inserts_bring_nothing() {
    let d = drawing(vec![
        ("inner", vec![line(70, 2)]),
        ("outer", vec![entity(50, Color::from_index(5), insert_of("inner", 1, 1, -1.0))]),
    ]);
    assert_eq!(resolved(&d, "outer"), Some(vec![]));
}

#[test]
fn vanishing_arcs_make_no_chunk() {
    let circle = |vanish: bool| {
        let mut e = entity(
            50,
            Color::from_index(1),
            EntityType::Circle(Circle {
                center: at(0.0, 0.0),
                radius: num(0.0),
                normal: facing(1.0),
            }),
        );
        e.arcs_vanish = vanish;
        e
    };
    let d = drawing(vec![("a", vec![circle(true)]), ("b", vec![circle(false)])]);
    assert_eq!(resolved(&d, "a"), Some(vec![]));
    assert_eq!(resolved(&d, "b"), Some(vec![(50, 1, vec![in_block(1, 0)])]));
}

#[test]
fn the_last_block_of_a_name_counts() {
    let d = drawing(vec![("a", vec![line(50, 1)]), ("a", vec![line(70, 2)])]);
    assert_eq!(resolved(&d, "a"), Some(vec![(70, 2, vec![in_block(1, 0)])]));
}

#[test]
fn unknown_layers_are_an_error() {
    let mut lost = line(50, 1);
    lost.common.layer = String::from("lost");
    let d = drawing(vec![("a", vec![line(50, 1), lost])]);
    assert_eq!(resolve_blocks(&d).err(), Some(LoadError::UnknownLayer));
}

#[test]
fn untraceable_splines_are_an_error() {
    let spline = entity(
        50,
        Color::from_index(1),
        EntityType::Spline(Spline {
            normal: facing(1.0),
            degree_of_curve: 0,
            control_points: vec![at(0.0, 0.0)],
            knot_values: vec![num(0.0), num(1.0)],
            is_closed: false,
        }),
    );
    let d = drawing(vec![("a", vec![spline])]);
    assert_eq!(resolve_blocks(&d).err(), Some(LoadError::UntraceableSpline));
}

#[test]
fn single_blocks_wait_for_others() {
    let d = drawing(vec![("outer", vec![insert("inner")]), ("inner", vec![line(70, 2)])]);
    let mut table = BlockTable::new();
    assert!(resolve_block(&d, 0, &table).unwrap().is_none());
    let inner = resolve_block(&d, 1, &table).unwrap().unwrap();
    table.insert(&String::from("inner"), inner);
    let outer = resolve_block(&d, 0, &table).unwrap().unwrap();
    assert_eq!(summary(&outer), vec![(70, 2, vec![in_block(1, 0)])]);
}

#[test]
fn layers_are_found_through_handles() {
    let layers = vec![layer("a", 1), layer("b", 2), layer("a", 3), layer("c", 3)];
    assert_eq!(find_layer(&layers, &String::from("b")), Some(1));
    // The last layer with the name gives the handle, the last with the handle the layer.
    assert_eq!(find_layer(&layers, &String::from("a")), Some(3));
    assert_eq!(find_layer(&layers, &String::from("d")), None);
}

#[test]
fn references_lead_to_entities() {
    let mut d = drawing(vec![("a", vec![line(50, 1)])]);
    d.entities.push(line(70, 2));
    let weight = |r: EntityRef| find_entity(&d, r).map(|e| e.common.lineweight_enum_value);
    assert_eq!(weight(in_block(0, 0)), Some(50));
    assert_eq!(weight(in_block(0, 1)), None);
    assert_eq!(weight(in_block(1, 0)), None);
    assert_eq!(weight(EntityRef { block: None, entity: 0 }), Some(70));
    assert_eq!(weight(EntityRef { block: None, entity: 1 }), None);
}

#[test]
fn parts_of_blocks_can_be_drawn() {
    let d = drawing(vec![
        ("bottom", vec![line(70, 2), line(50, 1)]),
        ("middle", vec![entity(50, Color::from_index(5), insert_of("bottom", 2, 3, 1.0))]),
        ("top", vec![line(50, 1), entity(50, Color::from_index(5), insert_of("middle", 2, 1, 1.0))]),
    ]);
    let table = resolve_blocks(&d).unwrap();
    for name in ["bottom", "middle", "top"] {
        for chunk in table.get(&String::from(name)).unwrap() {
            for part in &chunk.path {
                let source = find_entity(&d, part.source).unwrap();
                assert!(path_from_entity(source).is_some());
                for cell in &part.placements {
                    match &find_entity(&d, cell.insert).unwrap().specific {
                        EntityType::Insert(insert) => {
                            assert!(0 <= cell.row && cell.row < insert.row_count);
                            assert!(0 <= cell.column && cell.column < insert.column_count);
                        }
                        _ => panic!("only inserts place parts"),
                    }
                }
            }
        }
    }
}

#[test]
fn drawing_order_is_kept() {
    let d = drawing(vec![
        ("inner", vec![line(70, 2), line(70, 3)]),
        ("outer", vec![line(50, 1), insert("inner"), line(50, 2), insert("inner"), line(50, 1)]),
    ]);
    let table = resolve_blocks(&d).unwrap();
    let stems: Vec<usize> = table
        .get(&String::from("outer"))
        .unwrap()
        .iter()
        .flat_map(|chunk| &chunk.path)
        .map(|p| p.placements.last().map_or(p.source.entity, |cell| cell.insert.entity))
        .collect();
    assert_eq!(stems, vec![0, 1, 1, 2, 3, 3, 4]);
}

#[test]
fn lines_without_marks_are_dropped_before_inserts() {
    let point = || {
        entity(
            50,
            Color::from_index(5),
            EntityType::Spline(Spline {
                normal: facing(1.0),
                degree_of_curve: 0,
                control_points: vec![at(0.0, 0.0)],
                knot_values: vec![num(0.0), num(0.0)],
                is_closed: false,
            }),
        )
    };
    let d = drawing(vec![
        ("inner", vec![line(70, 2)]),
        ("dropped", vec![point(), insert("inner")]),
        ("kept", vec![point(), line(50, 5), insert("inner")]),
    ]);
    assert_eq!(resolved(&d, "dropped"), Some(vec![(70, 2, vec![in_block(0, 0)])]));
    assert_eq!(
        resolved(&d, "kept"),
        Some(vec![(50, 5, vec![in_block(2, 0), in_block(2, 1)]), (70, 2, vec![in_block(0, 0)])])
    );
}
