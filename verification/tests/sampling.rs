use minesweeper::sampling::pick_indices;

#[test]
fn pick_indices_gives_different_indices_below_the_length() {
    let mut rng = rand::thread_rng();
    for (length, amount) in [(100usize, 12usize), (10, 10), (1, 1), (1000, 200), (50, 1)] {
        for _ in 0..20 {
            let picks = pick_indices(&mut rng, length, amount);
            assert_eq!(picks.len(), amount);
            let mut seen = vec![false; length];
            for p in picks {
                assert!(p < length);
                assert!(!seen[p]);
                seen[p] = true;
            }
        }
    }
}

#[test]
fn pick_indices_of_everything_takes_every_index() {
    let mut rng = rand::thread_rng();
    let mut picks = pick_indices(&mut rng, 300, 300);
    picks.sort();
    assert_eq!(picks, (0..300).collect::<Vec<usize>>());
}

#[test]
fn pick_indices_of_nothing_is_empty() {
    let mut rng = rand::thread_rng();
    assert_eq!(pick_indices(&mut rng, 0, 0), Vec::<usize>::new());
    assert_eq!(pick_indices(&mut rng, 25, 0), Vec::<usize>::new());
}
