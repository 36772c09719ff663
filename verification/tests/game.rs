//! The grid-game strategy and the directory-walk handles.

use chip8::fswalk::{DirHandle, FileHandle, Handle};
use chip8::strategy::{Cell, Direction, Player, Strategy, World};

fn world_at(pos: Cell, territory: Vec<Cell>) -> World {
    World { me: Player { position: pos, territory, lines: Vec::new() }, enemies: Vec::new() }
}

#[test]
fn first_tick_plans_a_tour_and_faces_it() {
    let mut s = Strategy::new();
    // standing on own territory with nothing to gain anywhere: the planner
    // keeps its off-map marker and the tour goes around it
    let w = world_at(Cell(5, 5), vec![Cell(5, 5)]);
    let d = s.on_tick(w);
    assert_eq!(d, Direction::Left);
}

#[test]
fn following_ticks_keep_the_tour() {
    let mut s = Strategy::new();
    let w = world_at(Cell(5, 5), vec![Cell(5, 5)]);
    let first = s.on_tick(w);
    assert_eq!(first, Direction::Left);
    // one step left, now off home territory: the tour is kept and the
    // facing still aims at the first corner
    let w2 = world_at(Cell(4, 5), vec![Cell(5, 5)]);
    let second = s.on_tick(w2);
    assert_eq!(second, Direction::Left);
}

#[test]
fn dir_handle_records_a_descent_request() {
    let mut d = DirHandle::new("top/sub".to_string());
    assert_eq!(d.path(), "top/sub");
    assert!(!d.take_descend());
    d.descend();
    assert!(d.take_descend());
    // taking the mark clears it
    assert!(!d.take_descend());
}

#[test]
fn file_handle_records_a_read_request() {
    let mut f = FileHandle::new("top/file.txt".to_string());
    assert_eq!(f.path(), "top/file.txt");
    assert!(!f.take_read());
    f.read();
    assert!(f.take_read());
    assert!(!f.take_read());
}

#[test]
fn handles_carry_file_contents() {
    let h = Handle::Content { file_path: "x".to_string(), content: vec![1, 2, 3] };
    match h {
        Handle::Content { file_path, content } => {
            assert_eq!(file_path, "x");
            assert_eq!(content, vec![1, 2, 3]);
        },
        _ => panic!("expected contents"),
    }
}
