//! The smaller components: cursors, the sum editor, the index buffer,
//! and grid areas.

use nested::{IndexArea, IndexBuffer, ListCursorMode, Point2, PointRange, SumEditor, TreeCursor};

#[test]
fn cursor_positions() {
    let home = TreeCursor::home();
    assert_eq!(home.leaf_mode, ListCursorMode::Insert);
    assert_eq!(home.tree_addr, vec![0]);

    let none = TreeCursor::none();
    assert_eq!(none.leaf_mode, ListCursorMode::Select);
    assert!(none.tree_addr.is_empty());

    assert_eq!(TreeCursor::default(), TreeCursor::none());
}

#[test]
fn sum_editor_selection() {
    let mut sum = SumEditor::new(vec!["hex", "dec"]);
    assert_eq!(sum.cur, 0);
    assert_eq!(*sum.current(), "hex");
    sum.select(1);
    assert_eq!(*sum.current(), "dec");
}

#[test]
fn index_buffer_contents() {
    let mut buf: IndexBuffer<char> = IndexBuffer::new();
    buf.insert(Point2 { x: 0, y: 0 }, 'a');
    buf.insert(Point2 { x: 1, y: 0 }, 'b');
    // a second insert under the same key replaces the item
    buf.insert(Point2 { x: 0, y: 0 }, 'c');
    let view = buf.get_port();
    assert_eq!(view.data.len(), 2);
    assert_eq!(view.data[0], (Point2 { x: 0, y: 0 }, 'c'));
    assert_eq!(view.data[1], (Point2 { x: 1, y: 0 }, 'b'));

    buf.remove(Point2 { x: 0, y: 0 });
    let view = buf.get_port();
    assert_eq!(view.data, vec![(Point2 { x: 1, y: 0 }, 'b')]);

    // a buffer can be rebuilt from a snapshot
    let copy = IndexBuffer::with_port(buf.get_port());
    assert_eq!(copy.data, vec![(Point2 { x: 1, y: 0 }, 'b')]);
}

#[test]
fn index_buffer_bulk_insert() {
    let mut buf: IndexBuffer<u8> = IndexBuffer::new();
    buf.insert_iter(vec![
        (Point2 { x: 0, y: 0 }, 1),
        (Point2 { x: 1, y: 1 }, 2),
        (Point2 { x: 0, y: 0 }, 3),
    ]);
    assert_eq!(
        buf.data,
        vec![(Point2 { x: 0, y: 0 }, 3), (Point2 { x: 1, y: 1 }, 2)]
    );
}

#[test]
fn grid_areas() {
    let area = IndexArea::Points(vec![
        Point2 { x: 1, y: 2 },
        Point2 { x: 3, y: 0 },
    ]);
    assert_eq!(
        area.range(),
        PointRange { start: Point2 { x: 1, y: 0 }, end: Point2 { x: 3, y: 2 } }
    );

    let rect = IndexArea::Range(PointRange {
        start: Point2 { x: 0, y: 0 },
        end: Point2 { x: 1, y: 1 },
    });
    assert_eq!(
        rect.iter(),
        vec![
            Point2 { x: 0, y: 0 },
            Point2 { x: 1, y: 0 },
            Point2 { x: 0, y: 1 },
            Point2 { x: 1, y: 1 },
        ]
    );

    assert!(IndexArea::Empty.iter().is_empty());
}

#[test]
fn grid_area_union() {
    let a = IndexArea::Points(vec![Point2 { x: 0, y: 0 }]);
    let b = IndexArea::Points(vec![Point2 { x: 2, y: 2 }]);
    match a.union(b) {
        IndexArea::Points(v) => {
            assert_eq!(v, vec![Point2 { x: 0, y: 0 }, Point2 { x: 2, y: 2 }]);
        }
        other => panic!("unexpected union: {:?}", other),
    }

    // joining two rectangles gives the bounding rectangle
    let ra = IndexArea::Range(PointRange {
        start: Point2 { x: 0, y: 0 },
        end: Point2 { x: 1, y: 0 },
    });
    let rb = IndexArea::Range(PointRange {
        start: Point2 { x: 3, y: 2 },
        end: Point2 { x: 4, y: 2 },
    });
    match ra.union(rb) {
        IndexArea::Range(r) => {
            assert_eq!(r.start, Point2 { x: 0, y: 0 });
            assert_eq!(r.end, Point2 { x: 4, y: 2 });
        }
        other => panic!("unexpected union: {:?}", other),
    }

    match IndexArea::Empty.union(IndexArea::Full) {
        IndexArea::Full => {}
        other => panic!("unexpected union: {:?}", other),
    }
}
