use water_sort::board::{
    deal, is_cleared, is_conserved, is_within_capacity, make_portions, pour, total_of,
};

fn sample() -> Vec<Vec<i32>> {
    vec![
        vec![1, 1, 2, 2],
        vec![2, 2, 1, 1],
        vec![3, 3, 3],
        vec![3],
        vec![4, 4, 4, 4],
        vec![5, 5, 6, 6],
        vec![6, 6, 5, 5],
        vec![7, 7, 8, 8],
        vec![8, 8, 7, 7],
        vec![],
    ]
}

#[test]
fn portions_come_sorted_four_of_each() {
    assert_eq!(
        make_portions(),
        vec![
            1, 1, 1, 1, 2, 2, 2, 2, 3, 3, 3, 3, 4, 4, 4, 4, 5, 5, 5, 5, 6, 6, 6, 6, 7, 7, 7, 7,
            8, 8, 8, 8
        ]
    );
}

#[test]
fn deal_fills_eight_tubes_in_order() {
    let portions: Vec<i32> = (100..132).collect();
    let tubes = deal(&portions);
    assert_eq!(tubes.len(), 10);
    assert_eq!(tubes[0], vec![100, 101, 102, 103]);
    assert_eq!(tubes[1], vec![104, 105, 106, 107]);
    assert_eq!(tubes[7], vec![128, 129, 130, 131]);
    assert!(tubes[8].is_empty());
    assert!(tubes[9].is_empty());
    let again: Vec<i32> = tubes.into_iter().flatten().collect();
    assert_eq!(again, portions);
}

#[test]
fn pour_moves_the_top_run() {
    let mut tubes = sample();
    let moved = pour(&mut tubes, 0, 9);
    assert_eq!(moved, 2);
    assert_eq!(tubes[0], vec![1, 1]);
    assert_eq!(tubes[9], vec![2, 2]);
    let moved = pour(&mut tubes, 1, 0);
    assert_eq!(moved, 2);
    assert_eq!(tubes[1], vec![2, 2]);
    assert_eq!(tubes[0], vec![1, 1, 1, 1]);
    let moved = pour(&mut tubes, 1, 9);
    assert_eq!(moved, 2);
    assert!(tubes[1].is_empty());
    assert_eq!(tubes[9], vec![2, 2, 2, 2]);
}

#[test]
fn pour_is_limited_by_room() {
    let mut tubes = vec![vec![7, 5, 5, 5], vec![1, 2, 3], vec![]];
    let moved = pour(&mut tubes, 0, 1);
    assert_eq!(moved, 1);
    assert_eq!(tubes, vec![vec![7, 5, 5], vec![1, 2, 3, 5], vec![]]);
    let moved = pour(&mut tubes, 0, 1);
    assert_eq!(moved, 0);
    assert_eq!(tubes, vec![vec![7, 5, 5], vec![1, 2, 3, 5], vec![]]);
    let moved = pour(&mut tubes, 0, 2);
    assert_eq!(moved, 2);
    assert_eq!(tubes, vec![vec![7], vec![1, 2, 3, 5], vec![5, 5]]);
}

#[test]
fn pour_of_a_whole_tube_empties_it() {
    let mut tubes = vec![vec![], vec![4, 4, 4, 4]];
    let moved = pour(&mut tubes, 1, 0);
    assert_eq!(moved, 4);
    assert_eq!(tubes, vec![vec![4, 4, 4, 4], vec![]]);
}

#[test]
fn totals_count_across_tubes() {
    let tubes = sample();
    for color in 1..=8 {
        assert_eq!(total_of(&tubes, color), 4);
    }
    assert_eq!(total_of(&tubes, 0), 0);
    assert_eq!(total_of(&tubes, 9), 0);
    assert_eq!(total_of(&tubes, -1), 0);
    let mut tubes = sample();
    tubes[9] = vec![3, 3];
    assert_eq!(total_of(&tubes, 3), 6);
}

#[test]
fn conservation_check_counts_every_color() {
    assert!(is_conserved(&sample()));
    assert!(is_conserved(&deal(&make_portions())));
    let mut tubes = sample();
    tubes[3].clear();
    assert!(!is_conserved(&tubes));
    let mut tubes = sample();
    tubes[3][0] = 4;
    assert!(!is_conserved(&tubes));
    let mut tubes = sample();
    tubes[9].push(0);
    assert!(!is_conserved(&tubes));
    let mut tubes = sample();
    tubes[9].push(9);
    assert!(!is_conserved(&tubes));
}

#[test]
fn capacity_check_finds_an_overfull_tube() {
    assert!(is_within_capacity(&sample()));
    assert!(is_within_capacity(&Vec::new()));
    let mut tubes = sample();
    tubes[4].push(4);
    assert!(!is_within_capacity(&tubes));
}

#[test]
fn cleared_board_has_only_settled_tubes() {
    assert!(is_cleared(&deal(&make_portions())));
    assert!(!is_cleared(&sample()));
    assert!(is_cleared(&Vec::new()));
    assert!(is_cleared(&vec![vec![], vec![2, 2, 2, 2], vec![]]));
    assert!(!is_cleared(&vec![vec![], vec![2, 2, 2], vec![2]]));
    assert!(!is_cleared(&vec![vec![1, 2, 2, 2]]));
    assert!(!is_cleared(&vec![vec![2, 2, 2, 1]]));
}
