use synacor::grid::{find_path, Direction};

const GRID: [[i64; 4]; 4] = [
    // numbers as themselves; operators as -1 (+), -2 (-), -3 (*)
    [-3, 8, -2, 1],
    [4, -3, 11, -3],
    [-1, 4, -2, 18],
    [22, -2, 9, -3],
];

fn replay(path: &[Direction]) -> (usize, usize, i64) {
    let (mut x, mut y) = (0usize, 3usize);
    let mut weight = 0i64;
    let mut pending = Some(-1i64);
    let mut enter = |x: usize, y: usize, weight: &mut i64| {
        let sq = GRID[y][x];
        if sq >= 0 {
            match pending.take().expect("number without operator") {
                -1 => *weight += sq,
                -2 => *weight -= sq,
                _ => *weight *= sq,
            }
        } else {
            assert!(pending.is_none());
            pending = Some(sq);
        }
    };
    enter(x, y, &mut weight);
    for d in path {
        match d {
            Direction::Up => y -= 1,
            Direction::Down => y += 1,
            Direction::Left => x -= 1,
            Direction::Right => x += 1,
        }
        enter(x, y, &mut weight);
    }
    (x, y, weight)
}

#[test]
fn traverse_grid() {
    let path = find_path(30).expect("a path to the vault");
    let labels: Vec<&str> = path.iter().map(|d| d.label()).collect();
    println!("the path is: {labels:?}");
    assert_eq!(replay(&path), (3, 0, 30));
}

#[test]
fn path_is_shortest_found_by_breadth() {
    let path = find_path(30).unwrap();
    assert_eq!(path.len(), 12);
}

#[test]
fn other_targets_are_solved_too() {
    let path = find_path(22 * 4).unwrap();
    assert_eq!(replay(&path), (3, 0, 88));
}

#[test]
fn labels_are_words() {
    assert_eq!(Direction::Left.label(), "left");
    assert_eq!(Direction::Right.label(), "right");
    assert_eq!(Direction::Up.label(), "up");
    assert_eq!(Direction::Down.label(), "down");
}
