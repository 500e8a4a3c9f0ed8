use synacor::routine::{accepts, Search};

fn reference(r7: u16, x: u16, y: u16, memo: &mut std::collections::HashMap<(u16, u16), (u16, u16)>) -> (u16, u16) {
    if let Some(&r) = memo.get(&(x, y)) {
        return r;
    }
    let r = if x == 0 {
        ((y + 1) & 0x7fff, y)
    } else if y == 0 {
        reference(r7, x - 1, r7, memo)
    } else {
        let t = reference(r7, x, y - 1, memo);
        reference(r7, x - 1, t.0, memo)
    };
    memo.insert((x, y), r);
    r
}

#[test]
fn find_magic_value() {
    let magic_number = synacor::routine::find_magic_value().unwrap();
    println!("{magic_number}");
    assert_eq!(magic_number, 0x6486);
}

#[test]
fn magic_value_is_unique() {
    let hits: Vec<u16> = (1..32768u16).filter(|&v| accepts(v)).collect();
    assert_eq!(hits, vec![0x6486]);
}

#[test]
fn memo_search_agrees_with_fast_check() {
    for r7 in [1u16, 2, 3, 100, 0x6486, 32767] {
        let mut search = Search::new(r7);
        let result = search.find((4, 1));
        assert_eq!(result.0 == 6, accepts(r7));
    }
    let mut search = Search::new(0x6486);
    assert_eq!(search.find((4, 1)).0, 6);
}

#[test]
fn memo_search_small_rows() {
    let mut memo = std::collections::HashMap::new();
    let mut search = Search::new(3);
    assert_eq!(search.find((0, 32767)), (0, 32767));
    assert_eq!(search.find((1, 2)), (6, 5));
    assert_eq!(search.find((1, 32767)), (3, 2));
    for (x, y) in [(1u16, 0u16), (2, 5), (3, 0), (1, 40)] {
        assert_eq!(search.find((x, y)), reference(3, x, y, &mut memo));
    }
}
